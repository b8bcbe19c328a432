//! Sort keys are the string form of `fractional_index::FractionalIndex`:
//! lowercase hex, two digits per byte, ending in the terminator byte `80`.
//! The string order of two keys is the order of the indexes they encode.

use vstd::prelude::*;
use fractional_index::FractionalIndex;
use crate::order::{seq_lt, char_codes, lemma_chars_lt_at};

verus! {

/// A lowercase hexadecimal digit.
pub open spec fn is_hex_digit(c: char) -> bool {
    ('0' <= c <= '9') || ('a' <= c <= 'f')
}

/// `s` is the string form of a fractional index: an even, non-zero number of
/// lowercase hex digits whose last byte is the terminator `80`.
pub open spec fn is_index_key(s: Seq<char>) -> bool {
    &&& s.len() >= 2
    &&& s.len() % 2 == 0
    &&& forall|i: int| 0 <= i < s.len() ==> is_hex_digit(#[trigger] s[i])
    &&& s[s.len() - 2] == '8'
    &&& s[s.len() - 1] == '0'
}

/// Keys compare as strings.
pub open spec fn key_lt(a: Seq<char>, b: Seq<char>) -> bool {
    seq_lt(char_codes(a), char_codes(b))
}

/// The key of `FractionalIndex::default()`.
pub open spec fn first_key() -> Seq<char> {
    seq!['8', '0']
}

/// What `FractionalIndex::from_string` then `to_string` gives for an ASCII
/// string: the hex pairs are decoded (a trailing odd digit is ignored), and
/// the string is accepted when those pairs form a key.
pub open spec fn decoded_key(s: Seq<char>) -> Option<Seq<char>> {
    let pairs = s.take(2 * (s.len() as int / 2));
    if is_index_key(pairs) {
        Some(pairs)
    } else {
        None
    }
}

/// The value of a lowercase hex digit.
pub open spec fn hex_value(c: char) -> int {
    if '0' <= c <= '9' {
        c as int - '0' as int
    } else {
        c as int - 'a' as int + 10
    }
}

/// The lowercase hex digit for a value in `0..16`.
pub open spec fn hex_char(v: int) -> char {
    if v < 10 {
        ('0' as int + v) as char
    } else {
        ('a' as int + v - 10) as char
    }
}

/// Byte `i` of a key.
pub open spec fn key_byte(s: Seq<char>, i: int) -> int {
    hex_value(s[2 * i]) * 16 + hex_value(s[2 * i + 1])
}

/// `FractionalIndex::new_after` from byte `i` on: at the first byte below the
/// terminator `0x80` the key is cut there; otherwise at the first byte below
/// `0xff` that byte is raised by one and the key is cut after it; then the
/// terminator is appended.
pub open spec fn key_after_from(s: Seq<char>, i: nat) -> Seq<char>
    decreases s.len() - 2 * i,
{
    if 2 * i + 2 > s.len() {
        s
    } else if key_byte(s, i as int) < 0x80 {
        s.take(2 * i as int) + first_key()
    } else if key_byte(s, i as int) < 0xff {
        let b = key_byte(s, i as int) + 1;
        s.take(2 * i as int) + seq![hex_char(b / 16), hex_char(b % 16)] + first_key()
    } else {
        key_after_from(s, i + 1)
    }
}

/// The key of `FractionalIndex::new_after` applied to the index with key `k`.
pub open spec fn key_after(k: Seq<char>) -> Seq<char> {
    key_after_from(k, 0)
}

/// `FractionalIndex::new_before` from byte `i` on: at the first byte above the
/// terminator `0x80` the key is cut there; otherwise at the first byte above
/// zero that byte is lowered by one and the key is cut after it; then the
/// terminator is appended.
pub open spec fn key_before_from(s: Seq<char>, i: nat) -> Seq<char>
    decreases s.len() - 2 * i,
{
    if 2 * i + 2 > s.len() {
        s
    } else if key_byte(s, i as int) > 0x80 {
        s.take(2 * i as int) + first_key()
    } else if key_byte(s, i as int) > 0 {
        let b = key_byte(s, i as int) - 1;
        s.take(2 * i as int) + seq![hex_char(b / 16), hex_char(b % 16)] + first_key()
    } else {
        key_before_from(s, i + 1)
    }
}

/// The key of `FractionalIndex::new_before` applied to the index with key `k`.
pub open spec fn key_before(k: Seq<char>) -> Seq<char> {
    key_before_from(k, 0)
}

/// A hex digit and its value.
proof fn lemma_hex_digit(c: char)
    requires
        is_hex_digit(c),
    ensures
        0 <= hex_value(c) < 16,
        hex_char(hex_value(c)) == c,
        hex_value(c) < 8 ==> c < '8',
{
}

/// Larger values give larger hex digits.
proof fn lemma_hex_char_order(v: int, w: int)
    requires
        0 <= v < w < 16,
    ensures
        hex_char(v) < hex_char(w),
        is_hex_digit(hex_char(v)),
        is_hex_digit(hex_char(w)),
{
}

proof fn lemma_hex_char_digit(v: int)
    requires
        0 <= v < 16,
    ensures
        is_hex_digit(hex_char(v)),
{
}

proof fn lemma_key_after_from(s: Seq<char>, i: nat) -> (p: int)
    requires
        is_index_key(s),
        2 * i + 2 <= s.len(),
    ensures
        is_index_key(key_after_from(s, i)),
        2 * i <= p < s.len(),
        p < key_after_from(s, i).len(),
        forall|k: int| 0 <= k < p ==> key_after_from(s, i)[k] == s[k],
        s[p] < key_after_from(s, i)[p],
    decreases s.len() - 2 * i,
{
    let r = key_after_from(s, i);
    let hi = s[2 * i as int];
    let lo = s[2 * i as int + 1];
    lemma_hex_digit(hi);
    lemma_hex_digit(lo);
    let b = key_byte(s, i as int);
    if b < 0x80 {
        assert(r =~= s.take(2 * i as int) + first_key());
        assert(r[2 * i as int] == '8');
        assert forall|k: int| 0 <= k < r.len() implies is_hex_digit(#[trigger] r[k]) by {
            if k < 2 * i {
                assert(r[k] == s[k]);
            }
        }
        2 * i as int
    } else if b < 0xff {
        let c = b + 1;
        assert(r =~= s.take(2 * i as int) + seq![hex_char(c / 16), hex_char(c % 16)] + first_key());
        let hv = hex_value(hi);
        let lv = hex_value(lo);
        assert(0 <= c / 16 < 16 && 0 <= c % 16 < 16);
        lemma_hex_char_digit(c % 16);
        lemma_hex_char_digit(c / 16);
        assert forall|k: int| 0 <= k < r.len() implies is_hex_digit(#[trigger] r[k]) by {
            if k < 2 * i {
                assert(r[k] == s[k]);
            }
        }
        if lv < 15 {
            assert(c / 16 == hv && c % 16 == lv + 1);
            lemma_hex_char_order(lv, lv + 1);
            assert(r[2 * i as int] == hi);
            2 * i as int + 1
        } else {
            assert(c / 16 == hv + 1);
            lemma_hex_char_order(hv, hv + 1);
            2 * i as int
        }
    } else {
        // the terminator byte is 0x80, so this is not the last byte
        if 2 * i + 2 == s.len() {
            assert(hi == '8' && lo == '0');
            assert(false);
        }
        let p = lemma_key_after_from(s, i + 1);
        assert(r == key_after_from(s, i + 1));
        p
    }
}

/// The key after `k` is a key, and it comes after `k` at a position within
/// `k`: they agree before position `p` and differ there.
pub proof fn lemma_key_after(k: Seq<char>) -> (p: int)
    requires
        is_index_key(k),
    ensures
        is_index_key(key_after(k)),
        0 <= p < k.len(),
        p < key_after(k).len(),
        forall|j: int| 0 <= j < p ==> key_after(k)[j] == k[j],
        k[p] < key_after(k)[p],
        key_lt(k, key_after(k)),
{
    let p = lemma_key_after_from(k, 0);
    lemma_chars_lt_at(k, key_after(k), p);
    p
}


/// The key of `FractionalIndex::new(lower, upper)` for indexes with the given
/// keys (`None` when it gives none).
pub uninterp spec fn key_between(lower: Option<Seq<char>>, upper: Option<Seq<char>>) -> Option<Seq<char>>;

/// Both bounds are present and the lower one does not come before the upper one.
pub open spec fn bounds_out_of_order(lower: Option<Seq<char>>, upper: Option<Seq<char>>) -> bool {
    match (lower, upper) {
        (Some(l), Some(u)) => !key_lt(l, u),
        _ => false,
    }
}

/// `k` comes after `lower` and before `upper`, where present.
pub open spec fn key_within(lower: Option<Seq<char>>, k: Seq<char>, upper: Option<Seq<char>>) -> bool {
    &&& (lower matches Some(l) ==> key_lt(l, k))
    &&& (upper matches Some(u) ==> key_lt(k, u))
}

/// The first `2 * n` hex digits (`n` bytes) of the two keys agree.
pub open spec fn common_bytes(lo: Seq<char>, hi: Seq<char>, n: int) -> bool {
    forall|k: int| 0 <= k < 2 * n ==> lo[k] == hi[k]
}

/// Splitting between `lo` and `hi` reaches a zero byte of `hi` while both
/// still agree: `FractionalIndex::new_between` then computes `0u8 - 1`, which
/// panics (and in builds without overflow checks gives a key that is not
/// between the bounds). Only bytes before the shorter key's terminator are
/// examined.
pub open spec fn split_underflows(lo: Seq<char>, hi: Seq<char>) -> bool {
    exists|i: int|
        0 <= i && 2 * i + 2 < lo.len() && 2 * i + 2 < hi.len() && #[trigger] common_bytes(lo, hi, i)
            && zero_byte_at(hi, i)
}

/// Byte `j` of the key (hex digits `2j` and `2j + 1`) is zero.
pub open spec fn zero_byte_at(s: Seq<char>, j: int) -> bool {
    s[2 * j] == '0' && s[2 * j + 1] == '0'
}

/// Both bounds are present and splitting between them underflows.
pub open spec fn bounds_underflow(lower: Option<Seq<char>>, upper: Option<Seq<char>>) -> bool {
    match (lower, upper) {
        (Some(l), Some(u)) => split_underflows(l, u),
        _ => false,
    }
}

/// The view of an optional string.
pub open spec fn opt_view(o: Option<&str>) -> Option<Seq<char>> {
    match o {
        Some(s) => Some(s@),
        None => None,
    }
}

/// `FractionalIndex::default()`, as a key: the source builds it from the
/// single terminator byte, whose string form is `80`.
#[verifier::external_body]
pub(crate) fn default_key() -> (r: String)
    ensures
        r@ == first_key(),
{
    FractionalIndex::default().to_string()
}

/// `FractionalIndex::from_string`, with the decoded index turned back into its
/// key. On ASCII input the source decodes two hex digits per byte (lowercase
/// only), ignores a trailing odd digit, and accepts the bytes when they end in
/// the terminator; the contract states exactly that.
#[verifier::external_body]
pub(crate) fn decode_key(s: &str) -> (r: Option<String>)
    requires
        s.is_ascii(),
    ensures
        match r {
            Some(k) => decoded_key(s@) == Some(k@),
            None => decoded_key(s@) is None,
        },
{
    match FractionalIndex::from_string(s) {
        Ok(index) => Some(index.to_string()),
        Err(_) => None,
    }
}

/// `FractionalIndex::new_after` on the index with key `k`; the contract
/// restates its byte walk over the key's hex form (`key_after`).
#[verifier::external_body]
pub(crate) fn next_key_after(k: &str) -> (r: String)
    requires
        is_index_key(k@),
    ensures
        r@ == key_after(k@),
{
    match FractionalIndex::from_string(k) {
        Ok(index) => FractionalIndex::new_after(&index).to_string(),
        Err(_) => String::new(),
    }
}

/// `FractionalIndex::new(lower, upper)` on the indexes with the given keys.
/// The crate documents: with both bounds it gives an index strictly between
/// them (`new_between`), and `None` exactly when they are not in order or are
/// equal; with a lower bound only, `new_after` of it (`key_after`); with an
/// upper bound only, `new_before` of it (`key_before`); with none, the default
/// index. Bounds for which its source computes `0u8 - 1` are excluded.
#[verifier::external_body]
pub(crate) fn key_in_between(lower: Option<&str>, upper: Option<&str>) -> (r: Option<String>)
    requires
        lower matches Some(l) ==> is_index_key(l@),
        upper matches Some(u) ==> is_index_key(u@),
        !bounds_underflow(opt_view(lower), opt_view(upper)),
    ensures
        match r {
            Some(k) => key_between(opt_view(lower), opt_view(upper)) == Some(k@),
            None => key_between(opt_view(lower), opt_view(upper)) is None,
        },
        r is None <==> bounds_out_of_order(opt_view(lower), opt_view(upper)),
        r matches Some(k) ==> is_index_key(k@) && key_within(opt_view(lower), k@, opt_view(upper)),
        r matches Some(k) ==> (opt_view(lower) is None && opt_view(upper) is None ==> k@ == first_key()),
        r matches Some(k) ==> (upper is None ==> (lower matches Some(l) ==> k@ == key_after(l@))),
        r matches Some(k) ==> (lower is None ==> (upper matches Some(u) ==> k@ == key_before(u@))),
{
    let low = match lower { Some(l) => FractionalIndex::from_string(l).ok(), None => None };
    let high = match upper { Some(u) => FractionalIndex::from_string(u).ok(), None => None };
    match FractionalIndex::new(low.as_ref(), high.as_ref()) {
        Some(index) => Some(index.to_string()),
        None => None,
    }
}

} // verus!
