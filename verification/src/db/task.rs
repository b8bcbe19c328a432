use vstd::prelude::*;
use vstd::utf8::is_ascii_chars;
use crate::model::task::Task;
use crate::model::task_status::TaskStatus;
use crate::order::{char_codes, lemma_seq_lt_transitive, lemma_chars_lt_at, lemma_chars_lt_extend};
use crate::db::index_keys::{
    is_index_key, is_hex_digit, key_lt, first_key, decoded_key, key_after, key_before, key_between, lemma_key_after,
    bounds_out_of_order, key_within, default_key, decode_key, next_key_after, key_in_between,
    split_underflows, bounds_underflow, common_bytes, zero_byte_at, opt_view,
};

verus! {

// ---- Neighbours of a drop position ----

/// The list position that drop index `i` refers to. When the source task is
/// filtered out (a move within one column), positions at or after the
/// source shift up by one.
pub open spec fn neighbor_position(filter_source: bool, source_index: int, i: int) -> int {
    if filter_source && 0 <= source_index <= i {
        i + 1
    } else {
        i
    }
}

/// The sort key of the task at `pos`, if there is one.
pub open spec fn key_at_position(tasks: Seq<Task>, pos: int) -> Option<String> {
    if 0 <= pos < tasks.len() {
        Some(tasks[pos].sort_key)
    } else {
        None
    }
}

/// The sort key at position `pos` of the list, or `None` when `pos` is out of range.
fn sort_key_at(tasks: &[Task], pos: i64) -> (r: Option<String>)
    requires
        pos <= 0x8000_0000,
    ensures
        r == key_at_position(tasks@, pos as int),
{
    if pos >= 0 && (pos as usize) < tasks.len() {
        Some(tasks[pos as usize].sort_key.clone())
    } else {
        None
    }
}

/// Compute prev and next sort_keys for insertion at `effective_index`.
/// When `filter_source` is true, the task at `source_index` is excluded so its
/// own sort_key doesn't contaminate the computation (same-column moves).
/// Uses direct indexing, no allocation.
pub fn sort_neighbors(
    tasks: &[Task],
    filter_source: bool,
    source_index: i32,
    effective_index: i32,
) -> (r: (Option<String>, Option<String>))
    requires
        !(filter_source && effective_index == -1),
    ensures
        r.0 == (if effective_index > 0 {
            key_at_position(tasks@, neighbor_position(filter_source, source_index as int, effective_index - 1))
        } else {
            None
        }),
        r.1 == key_at_position(tasks@, neighbor_position(filter_source, source_index as int, effective_index as int)),
        !filter_source ==> r.0 == (if 0 < effective_index <= tasks.len() {
            Some(tasks@[effective_index - 1].sort_key)
        } else {
            None
        }),
        !filter_source ==> r.1 == (if 0 <= effective_index < tasks.len() {
            Some(tasks@[effective_index as int].sort_key)
        } else {
            None
        }),
        filter_source && 0 <= source_index < tasks.len() && 0 < effective_index
            ==> r.0 == key_at_position(tasks@.remove(source_index as int), effective_index - 1),
        filter_source && 0 <= source_index < tasks.len() && 0 <= effective_index
            ==> r.1 == key_at_position(tasks@.remove(source_index as int), effective_index as int),
{
    let prev = if effective_index > 0 {
        let i: i64 = effective_index as i64 - 1;
        let pos: i64 = if filter_source && 0 <= source_index && source_index as i64 <= i {
            i + 1
        } else {
            i
        };
        sort_key_at(tasks, pos)
    } else {
        None
    };
    let i: i64 = effective_index as i64;
    let pos: i64 = if filter_source && 0 <= source_index && source_index as i64 <= i {
        i + 1
    } else {
        i
    };
    let next = sort_key_at(tasks, pos);
    proof {
        if filter_source && 0 <= source_index < tasks.len() {
            if effective_index > 0 {
                lemma_filtered_neighbor_is_removed_list(tasks@, source_index as int, effective_index - 1);
            }
            if effective_index >= 0 {
                lemma_filtered_neighbor_is_removed_list(tasks@, source_index as int, effective_index as int);
            }
        }
    }
    (prev, next)
}

/// Without a source to leave out, a drop position is looked up as it is:
/// the source index plays no part.
pub proof fn lemma_unfiltered_neighbor_ignores_source(tasks: Seq<Task>, source_index: int, other_source: int, i: int)
    ensures
        key_at_position(tasks, neighbor_position(false, source_index, i))
            == key_at_position(tasks, neighbor_position(false, other_source, i)),
        key_at_position(tasks, neighbor_position(false, source_index, i))
            == (if 0 <= i < tasks.len() { Some(tasks[i].sort_key) } else { None }),
{
}

/// Excluding the source task and looking up a drop position gives the same
/// key as looking the position up in the list with the source task removed.
pub proof fn lemma_filtered_neighbor_is_removed_list(tasks: Seq<Task>, source_index: int, i: int)
    requires
        0 <= source_index < tasks.len(),
        0 <= i,
    ensures
        key_at_position(tasks, neighbor_position(true, source_index, i))
            == key_at_position(tasks.remove(source_index), i),
{
}

// ---- Keys between neighbours ----

/// The bound a stored key gives: its decoded key, or none when it does not
/// decode. A key that is not ASCII never decodes.
pub open spec fn parsed_bound(o: Option<Seq<char>>) -> Option<Seq<char>> {
    match o {
        Some(s) => if is_ascii_chars(s) {
            decoded_key(s)
        } else {
            None
        },
        None => None,
    }
}

fn parse_bound(o: Option<&str>) -> (r: Option<String>)
    ensures
        match r {
            Some(k) => parsed_bound(opt_view(o)) == Some(k@) && is_index_key(k@),
            None => parsed_bound(opt_view(o)) is None,
        },
{
    match o {
        Some(s) => if s.is_ascii() {
            decode_key(s)
        } else {
            None
        },
        None => None,
    }
}

fn as_str_opt(o: &Option<String>) -> (r: Option<&str>)
    ensures
        match o {
            Some(s) => r matches Some(t) && t@ == s@,
            None => r is None,
        },
{
    match o {
        Some(s) => Some(s.as_str()),
        None => None,
    }
}

/// Whether splitting two keys underflows (see `split_underflows`).
fn keys_split_underflows(lo: &str, hi: &str) -> (r: bool)
    requires
        is_index_key(lo@),
        is_index_key(hi@),
    ensures
        r == split_underflows(lo@, hi@),
{
    let lo_len = lo.unicode_len();
    let hi_len = hi.unicode_len();
    let mut i: usize = 0;
    while i + 1 < lo_len / 2 && i + 1 < hi_len / 2
        invariant
            lo_len == lo@.len(),
            hi_len == hi@.len(),
            lo_len % 2 == 0,
            hi_len % 2 == 0,
            2 * i <= lo_len,
            2 * i <= hi_len,
            common_bytes(lo@, hi@, i as int),
            forall|j: int| 0 <= j < i ==> !#[trigger] zero_byte_at(hi@, j),
        decreases lo_len - 2 * i,
    {
        let h0 = hi.get_char(2 * i);
        let h1 = hi.get_char(2 * i + 1);
        if h0 == '0' && h1 == '0' {
            assert(common_bytes(lo@, hi@, i as int));
            return true;
        }
        let l0 = lo.get_char(2 * i);
        let l1 = lo.get_char(2 * i + 1);
        if l0 != h0 || l1 != h1 {
            proof {
                assert forall|j: int|
                    0 <= j && 2 * j + 2 < lo@.len() && 2 * j + 2 < hi@.len() && #[trigger] common_bytes(lo@, hi@, j)
                    implies !zero_byte_at(hi@, j) by {
                    if j > i {
                        assert(lo@[2 * i as int] == hi@[2 * i as int]);
                        assert(lo@[2 * i + 1] == hi@[2 * i + 1]);
                    }
                }
            }
            return false;
        }
        i = i + 1;
        assert(common_bytes(lo@, hi@, i as int));
    }
    proof {
        assert forall|j: int|
            0 <= j && 2 * j + 2 < lo@.len() && 2 * j + 2 < hi@.len() && #[trigger] common_bytes(lo@, hi@, j)
            implies !zero_byte_at(hi@, j) by {
        }
    }
    false
}

/// Whether `new_sort_key_between(prev, next)` is outside its domain: both
/// bounds decode and splitting between them underflows.
pub fn sort_key_split_underflows(prev: Option<&str>, next: Option<&str>) -> (r: bool)
    ensures
        r == bounds_underflow(parsed_bound(opt_view(prev)), parsed_bound(opt_view(next))),
{
    let low = parse_bound(prev);
    let high = parse_bound(next);
    match (&low, &high) {
        (Some(l), Some(h)) => keys_split_underflows(l.as_str(), h.as_str()),
        _ => false,
    }
}

/// A bound that is given but does not decode as a key.
pub open spec fn bound_fails(o: Option<Seq<char>>) -> bool {
    o is Some && parsed_bound(o) is None
}

/// Generate a new sort_key between `prev` and `next` using string fractional indexing.
///
/// Returns `None` when a given key cannot be parsed, or when both parse and
/// `prev` does not come before `next`. Otherwise the key lies strictly between
/// the decoded bounds, and (as strings) before `next`, and after `prev` when
/// `prev` is a well-formed key or the only bound. With `prev` alone it is the
/// key after `prev`, with `next` alone the key before `next`.
pub fn new_sort_key_between(prev: Option<&str>, next: Option<&str>) -> (r: Option<String>)
    requires
        !bounds_underflow(parsed_bound(opt_view(prev)), parsed_bound(opt_view(next))),
    ensures
        r is None <==> (bound_fails(opt_view(prev)) || bound_fails(opt_view(next))
            || bounds_out_of_order(parsed_bound(opt_view(prev)), parsed_bound(opt_view(next)))),
        !bound_fails(opt_view(prev)) && !bound_fails(opt_view(next)) ==> match r {
            Some(k) => key_between(parsed_bound(opt_view(prev)), parsed_bound(opt_view(next))) == Some(k@),
            None => key_between(parsed_bound(opt_view(prev)), parsed_bound(opt_view(next))) is None,
        },
        r matches Some(k) ==> is_index_key(k@)
            && key_within(parsed_bound(opt_view(prev)), k@, parsed_bound(opt_view(next))),
        r matches Some(k) ==> (prev is None && next is None ==> k@ == first_key()),
        r matches Some(k) ==> (next is None ==> (parsed_bound(opt_view(prev)) matches Some(l)
            ==> k@ == key_after(l))),
        r matches Some(k) ==> (prev is None ==> (parsed_bound(opt_view(next)) matches Some(u)
            ==> k@ == key_before(u))),
        r matches Some(k) ==> (next matches Some(n) ==> key_lt(k@, n@)),
        r matches Some(k) ==> (prev matches Some(p) ==> (is_index_key(p@) || next is None ==> key_lt(p@, k@))),
{
    let low = parse_bound(prev);
    match (prev, &low) {
        (Some(_), None) => { return None; },
        _ => {},
    }
    let high = parse_bound(next);
    match (next, &high) {
        (Some(_), None) => { return None; },
        _ => {},
    }
    let low_ref = as_str_opt(&low);
    let high_ref = as_str_opt(&high);
    let r = key_in_between(low_ref, high_ref);
    proof {
        if let Some(k) = &r {
            if let Some(n) = next {
                let d = parsed_bound(Some(n@)).unwrap();
                assert(d == n@.take(2 * (n@.len() as int / 2)));
                lemma_chars_lt_extend(k@, d, n@);
            }
            if let Some(p) = prev {
                if is_index_key(p@) {
                    lemma_key_decodes_to_itself(p@);
                }
                if next is None {
                    lemma_new_task_key_after_last(p@);
                }
            }
        }
    }
    r
}

/// True when the sort_key has grown unreasonably long and the column should be rebalanced.
pub fn sort_key_needs_rebalance(prev: Option<&str>, next: Option<&str>) -> (r: bool)
    ensures
        r == (key_too_long(opt_byte_len(prev)) || key_too_long(opt_byte_len(next))),
{
    let threshold: usize = 100;
    let prev_long = match prev {
        Some(k) => k.len() >= threshold,
        None => false,
    };
    let next_long = match next {
        Some(k) => k.len() >= threshold,
        None => false,
    };
    prev_long || next_long
}

/// The length in bytes (UTF-8) of an optional string.
pub open spec fn opt_byte_len(o: Option<&str>) -> Option<usize> {
    match o {
        Some(s) => Some(s.len()),
        None => None,
    }
}

/// A key of 100 or more bytes is too long.
pub open spec fn key_too_long(len: Option<usize>) -> bool {
    match len {
        Some(n) => n >= 100,
        None => false,
    }
}

// ---- Renumbering a column ----

/// The `n`-th key of a renumbered column: the default key, then each key the
/// one after the previous.
pub open spec fn renumbered_key(n: nat) -> Seq<char>
    decreases n,
{
    if n == 0 {
        first_key()
    } else {
        key_after(renumbered_key((n - 1) as nat))
    }
}

proof fn lemma_first_key_is_key()
    ensures
        is_index_key(first_key()),
{
    assert(is_hex_digit(first_key()[0]));
    assert(is_hex_digit(first_key()[1]));
}

/// Fresh keys for a column whose tasks, in order, have the given ids: the
/// first task gets the default key and each next task the key after the
/// previous one.
pub fn renumber_keys(ids: &[i64]) -> (r: Vec<(i64, String)>)
    ensures
        r.len() == ids.len(),
        forall|i: int| 0 <= i < ids.len() ==> (#[trigger] r@[i]).0 == ids@[i],
        forall|i: int| 0 <= i < ids.len() ==> (#[trigger] r@[i]).1@ == renumbered_key(i as nat),
        forall|i: int| 0 <= i < ids.len() ==> is_index_key((#[trigger] r@[i]).1@),
        forall|i: int, j: int| 0 <= i < j < ids.len() ==> key_lt((#[trigger] r@[i]).1@, (#[trigger] r@[j]).1@),
{
    let mut r: Vec<(i64, String)> = Vec::new();
    let mut key = default_key();
    proof {
        lemma_first_key_is_key();
    }
    let mut i: usize = 0;
    while i < ids.len()
        invariant
            i <= ids.len(),
            r.len() == i,
            key@ == renumbered_key(i as nat),
            is_index_key(key@),
            forall|k: int| 0 <= k < i ==> (#[trigger] r@[k]).0 == ids@[k],
            forall|k: int| 0 <= k < i ==> (#[trigger] r@[k]).1@ == renumbered_key(k as nat),
            forall|k: int| 0 <= k < i ==> is_index_key((#[trigger] r@[k]).1@),
            forall|k: int| 0 <= k < i ==> key_lt((#[trigger] r@[k]).1@, key@),
            forall|a: int, b: int| 0 <= a < b < i ==> key_lt((#[trigger] r@[a]).1@, (#[trigger] r@[b]).1@),
        decreases ids.len() - i,
    {
        let next = next_key_after(key.as_str());
        proof {
            lemma_key_after(key@);
            assert forall|k: int| 0 <= k < i implies key_lt((#[trigger] r@[k]).1@, next@) by {
                lemma_seq_lt_transitive(char_codes(r@[k].1@), char_codes(key@), char_codes(next@));
            }
        }
        r.push((ids[i], key));
        key = next;
        i = i + 1;
    }
    r
}

// ---- Key for a new task ----

/// The key a new task gets when `last` is the greatest key in the Todo
/// column: the key after it (after the default key when it does not decode),
/// or the default key for an empty column.
pub open spec fn new_task_key(last: Option<Seq<char>>) -> Seq<char> {
    match last {
        Some(k) => match parsed_bound(Some(k)) {
            Some(base) => key_after(base),
            None => key_after(first_key()),
        },
        None => first_key(),
    }
}

proof fn lemma_key_decodes_to_itself(k: Seq<char>)
    requires
        is_index_key(k),
    ensures
        is_ascii_chars(k),
        parsed_bound(Some(k)) == Some(k),
{
    assert forall|i: int| 0 <= i < k.len() implies '\0' <= #[trigger] k[i] <= '\u{7f}' by {
        assert(is_hex_digit(k[i]));
    }
    assert(k.take(2 * (k.len() as int / 2)) =~= k);
}

/// The key after a decodable last key comes after it as a string: the
/// decoded key is a prefix of the stored one, and the key after it differs
/// from it within that prefix.
proof fn lemma_new_task_key_after_last(last: Seq<char>)
    requires
        parsed_bound(Some(last)) is Some,
    ensures
        is_index_key(new_task_key(Some(last))),
        key_lt(last, new_task_key(Some(last))),
{
    let d = parsed_bound(Some(last)).unwrap();
    assert(d == last.take(2 * (last.len() as int / 2)));
    let r = key_after(d);
    let p = lemma_key_after(d);
    assert forall|j: int| 0 <= j < p implies last[j] == r[j] by {
        assert(last[j] == d[j]);
    }
    assert(last[p] == d[p]);
    lemma_chars_lt_at(last, r, p);
}

/// A task added to a column gets a key after every key in it: when `last`,
/// the greatest key of the column, decodes, each key that is `last` or comes
/// before it comes before the new task's key.
pub proof fn lemma_new_task_key_after_column(keys: Seq<Seq<char>>, last: Seq<char>)
    requires
        parsed_bound(Some(last)) is Some,
        forall|i: int| 0 <= i < keys.len() ==> keys[i] == last || key_lt(#[trigger] keys[i], last),
    ensures
        forall|i: int| 0 <= i < keys.len() ==> key_lt(#[trigger] keys[i], new_task_key(Some(last))),
{
    lemma_new_task_key_after_last(last);
    assert forall|i: int| 0 <= i < keys.len() implies key_lt(#[trigger] keys[i], new_task_key(Some(last))) by {
        if keys[i] != last {
            lemma_seq_lt_transitive(char_codes(keys[i]), char_codes(last), char_codes(new_task_key(Some(last))));
        }
    }
}

/// The sort key for a task appended to the Todo column whose last key is `last_key`.
pub fn next_sort_key(last_key: Option<&str>) -> (r: String)
    ensures
        r@ == new_task_key(opt_view(last_key)),
        is_index_key(r@),
        last_key matches Some(k) ==> (parsed_bound(Some(k@)) is Some ==> key_lt(k@, r@)),
{
    match last_key {
        Some(k) => {
            proof {
                lemma_first_key_is_key();
                if parsed_bound(Some(k@)) is Some {
                    lemma_new_task_key_after_last(k@);
                }
            }
            let base = match parse_bound(Some(k)) {
                Some(b) => b,
                None => default_key(),
            };
            next_key_after(base.as_str())
        },
        None => {
            proof {
                lemma_first_key_is_key();
            }
            default_key()
        },
    }
}

// ---- Completion time on a move ----

/// What a move does to a task's `completed_at`.
#[derive(Debug, Clone, Copy, PartialEq, Eq, Structural)]
pub enum CompletedAtUpdate {
    /// Keep an existing completion time, or stamp the current time if unset.
    KeepOrStampNow,
    /// Clear the completion time.
    Clear,
}

/// Moving into Done records a completion time (keeping an earlier one);
/// moving anywhere else clears it.
pub fn completed_at_update(new_status: TaskStatus) -> (r: CompletedAtUpdate)
    ensures
        r == (if new_status == TaskStatus::Done {
            CompletedAtUpdate::KeepOrStampNow
        } else {
            CompletedAtUpdate::Clear
        }),
{
    match new_status {
        TaskStatus::Done => CompletedAtUpdate::KeepOrStampNow,
        _ => CompletedAtUpdate::Clear,
    }
}

} // verus!
