use vstd::prelude::*;
use vstd::string::*;
use pinyin::ToPinyin;
use crate::model::task::Task;
use crate::order::{seq_lt, char_codes, int_seq, lemma_seq_lt_total, lemma_seq_lt_at};
use crate::stable_sort::{is_permutation, key_before, key_at, sort_by_keys};

verus! {

/// Sort field options for a kanban column.
#[derive(Debug, Clone, Copy, PartialEq, Eq, Structural)]
pub enum SortField {
    /// Preserve the DB sort_key order (drag-and-drop manual ordering).
    Manual,
    /// Sort by priority (P0 highest, P3 lowest).
    Priority,
    /// Sort by due date.
    DueDate,
    /// Sort by title, case-insensitive and Chinese-pinyin-aware.
    Title,
}

/// The integer used for each sort field in the UI settings.
pub open spec fn sort_field_code(f: SortField) -> int {
    match f {
        SortField::Manual => 0,
        SortField::Priority => 1,
        SortField::DueDate => 2,
        SortField::Title => 3,
    }
}

/// The sort field for a UI integer; anything unknown is the default, `Priority`.
pub open spec fn sort_field_from_code(v: int) -> SortField {
    if v == 0 {
        SortField::Manual
    } else if v == 1 {
        SortField::Priority
    } else if v == 2 {
        SortField::DueDate
    } else if v == 3 {
        SortField::Title
    } else {
        SortField::Priority
    }
}

impl Default for SortField {
    fn default() -> (r: Self)
        ensures
            r == SortField::Priority,
    {
        SortField::Priority
    }
}

impl SortField {
    /// Convert from the i32 stored in the UI settings.
    pub fn from_i32(v: i32) -> (r: Self)
        ensures
            r == sort_field_from_code(v as int),
    {
        match v {
            0 => Self::Manual,
            1 => Self::Priority,
            2 => Self::DueDate,
            3 => Self::Title,
            _ => Self::default(),
        }
    }

    /// Convert to the i32 used in the UI settings.
    pub fn to_i32(self) -> (r: i32)
        ensures
            r as int == sort_field_code(self),
    {
        match self {
            Self::Manual => 0,
            Self::Priority => 1,
            Self::DueDate => 2,
            Self::Title => 3,
        }
    }
}

/// Converting a sort field to its integer and back gives the same field.
pub proof fn lemma_sort_field_code_roundtrip(f: SortField)
    ensures
        sort_field_from_code(sort_field_code(f)) == f,
{
}

/// Sort configuration for one kanban column.
///
/// `direction` is `true` for ascending, `false` for descending.
#[derive(Debug, Clone, Copy, PartialEq, Eq, Structural)]
pub struct SortConfig {
    pub field: SortField,
    /// `true` = ascending, `false` = descending.
    pub direction: bool,
}

/// The direction a stored configuration takes when it names none: ascending.
pub fn default_direction() -> (r: bool)
    ensures
        r,
{
    true
}

impl Default for SortConfig {
    fn default() -> (r: Self)
        ensures
            r == (SortConfig { field: SortField::Priority, direction: true }),
    {
        Self { field: SortField::Priority, direction: true }
    }
}

// ---- Title keys ----

/// The tone-less pinyin that the `pinyin` crate gives for `c`
/// (`c.to_pinyin()` then `Pinyin::plain`), or `None` when it has none.
pub uninterp spec fn plain_pinyin(c: char) -> Option<Seq<char>>;

/// Calls `pinyin::ToPinyin::to_pinyin` on one character and takes the plain
/// (tone-less) spelling. The contract ties the result to `plain_pinyin` and
/// states what the crate's data shows: no character below U+3007 has a
/// reading, so ASCII characters have none.
#[verifier::external_body]
fn char_pinyin(c: char) -> (r: Option<String>)
    ensures
        r matches Some(p) ==> plain_pinyin(c) == Some(p@),
        r is None ==> plain_pinyin(c) is None,
        (c as u32) < 0x3007 ==> r is None,
{
    match c.to_pinyin() {
        Some(p) => Some(p.plain().to_string()),
        None => None,
    }
}

/// The characters of `char::to_lowercase(c)`.
pub uninterp spec fn lowercase_of(c: char) -> Seq<char>;

/// Calls `char::to_lowercase` and collects its characters. The contract ties
/// the result to `lowercase_of` and states the documented ASCII case: `A`-`Z`
/// map to `a`-`z` and every other ASCII character maps to itself.
#[verifier::external_body]
fn char_lowercase(c: char) -> (r: String)
    ensures
        r@ == lowercase_of(c),
        'A' <= c <= 'Z' ==> r@ == seq![((c as u32) + 32) as char],
        (c as u32) < 128 && !('A' <= c <= 'Z') ==> r@ == seq![c],
{
    c.to_lowercase().collect()
}

/// A key character made ASCII: an ASCII character stays, any other becomes
/// `~`, the greatest printable ASCII character, so it still sorts after
/// letters and digits as it did by code point.
pub open spec fn ascii_fold(c: char) -> char {
    if (c as u32) < 128 {
        c
    } else {
        '~'
    }
}

/// `ascii_fold` applied to every character.
pub open spec fn fold_ascii(s: Seq<char>) -> Seq<char> {
    s.map_values(|c: char| ascii_fold(c))
}

/// The piece of a title key contributed by one character: its pinyin when it
/// has one, else its lowercase form, made ASCII by `ascii_fold` (plain pinyin
/// may hold `ü`, and accented letters stay accented when lowercased).
pub open spec fn char_title_key(c: char) -> Seq<char> {
    fold_ascii(
        match plain_pinyin(c) {
            Some(p) => p,
            None => lowercase_of(c),
        },
    )
}

/// A case-insensitive, pinyin-aware sort key for a title: each character
/// replaced by `char_title_key`, in order.
pub open spec fn pinyin_key(s: Seq<char>) -> Seq<char>
    decreases s.len(),
{
    if s.len() == 0 {
        Seq::empty()
    } else {
        pinyin_key(s.drop_last()) + char_title_key(s.last())
    }
}

/// ASCII lowercasing of one character.
pub open spec fn ascii_lower(c: char) -> char {
    if 'A' <= c <= 'Z' {
        ((c as u32) + 32) as char
    } else {
        c
    }
}

/// Every character is ASCII.
pub open spec fn all_ascii(s: Seq<char>) -> bool {
    forall|i: int| 0 <= i < s.len() ==> (#[trigger] s[i] as u32) < 128
}

/// Appends `piece` to `result` with each non-ASCII character replaced by `~`.
fn append_folded(result: &mut String, piece: &str)
    ensures
        final(result)@ == old(result)@ + fold_ascii(piece@),
{
    let ghost start = result@;
    let n = piece.unicode_len();
    let mut i: usize = 0;
    while i < n
        invariant
            n == piece@.len(),
            i <= n,
            result@ == start + fold_ascii(piece@.take(i as int)),
        decreases n - i,
    {
        let c = piece.get_char(i);
        let ghost before = result@;
        if (c as u32) < 128 {
            let one = piece.substring_char(i, i + 1);
            result.append(one);
            assert(one@ =~= seq![ascii_fold(c)]);
        } else {
            let tilde = "~";
            proof {
                reveal_strlit("~");
            }
            result.append(tilde);
            assert(tilde@ =~= seq![ascii_fold(c)]);
        }
        assert(fold_ascii(piece@.take(i as int + 1)) =~= fold_ascii(piece@.take(i as int)) + seq![ascii_fold(c)]);
        i = i + 1;
    }
    assert(piece@.take(n as int) =~= piece@);
}

/// Every piece of a title key is ASCII.
proof fn lemma_fold_ascii_is_ascii(s: Seq<char>)
    ensures
        all_ascii(fold_ascii(s)),
{
    assert forall|i: int| 0 <= i < fold_ascii(s).len() implies (#[trigger] fold_ascii(s)[i] as u32) < 128 by {
        assert(fold_ascii(s)[i] == ascii_fold(s[i]));
    }
}

/// Title keys are ASCII.
pub proof fn lemma_pinyin_key_is_ascii(s: Seq<char>)
    ensures
        all_ascii(pinyin_key(s)),
    decreases s.len(),
{
    if s.len() > 0 {
        lemma_pinyin_key_is_ascii(s.drop_last());
        let head = pinyin_key(s.drop_last());
        let tail = char_title_key(s.last());
        lemma_fold_ascii_is_ascii(
            match plain_pinyin(s.last()) {
                Some(p) => p,
                None => lowercase_of(s.last()),
            },
        );
        assert forall|i: int| 0 <= i < pinyin_key(s).len() implies (#[trigger] pinyin_key(s)[i] as u32) < 128 by {
            if i < head.len() {
                assert(pinyin_key(s)[i] == head[i]);
            } else {
                assert(pinyin_key(s)[i] == tail[i - head.len()]);
            }
        }
    }
}

/// Build a case-insensitive, pinyin-aware sort key from a title string.
///
/// Chinese characters are converted to their tone-less pinyin (e.g. "张" -> "zhang").
/// Non-Chinese characters are lowercased. This produces a flat ASCII key
/// suitable for `str::cmp`-based sorting: a character that would still be
/// non-ASCII (an accented letter, the `ü` of plain pinyin) becomes `~`.
pub fn pinyin_sort_key(s: &str) -> (r: String)
    ensures
        r@ == pinyin_key(s@),
        all_ascii(r@),
        all_ascii(s@) ==> r@ == s@.map_values(|c: char| ascii_lower(c)),
{
    let n = s.unicode_len();
    let mut result = String::new();
    let mut i: usize = 0;
    assert(s@.take(0) =~= Seq::<char>::empty());
    assert(s@.take(0).map_values(|c: char| ascii_lower(c)) =~= Seq::<char>::empty());
    while i < n
        invariant
            n == s@.len(),
            i <= n,
            result@ == pinyin_key(s@.take(i as int)),
            all_ascii(s@) ==> result@ == s@.take(i as int).map_values(|c: char| ascii_lower(c)),
        decreases n - i,
    {
        let c = s.get_char(i);
        assert(s@.take(i as int + 1).drop_last() =~= s@.take(i as int));
        let ghost before = result@;
        match char_pinyin(c) {
            Some(p) => append_folded(&mut result, p.as_str()),
            None => {
                let lower = char_lowercase(c);
                append_folded(&mut result, lower.as_str());
            },
        }
        proof {
            if all_ascii(s@) {
                assert((s@[i as int] as u32) < 128);
                assert(fold_ascii(seq![ascii_lower(c)]) =~= seq![ascii_lower(c)]);
                assert(result@ == before + seq![ascii_lower(c)]);
                assert(s@.take(i as int + 1).map_values(|c: char| ascii_lower(c))
                    =~= s@.take(i as int).map_values(|c: char| ascii_lower(c)) + seq![ascii_lower(c)]);
            }
        }
        i = i + 1;
    }
    assert(s@.take(n as int) =~= s@);
    proof {
        lemma_pinyin_key_is_ascii(s@);
    }
    result
}

/// The code points of a string, as a vector.
fn string_codes(s: &str) -> (r: Vec<i64>)
    ensures
        int_seq(r@) == char_codes(s@),
{
    let n = s.unicode_len();
    let mut r: Vec<i64> = Vec::new();
    let mut i: usize = 0;
    while i < n
        invariant
            n == s@.len(),
            i <= n,
            r.len() == i,
            forall|k: int| 0 <= k < i ==> #[trigger] r@[k] as int == s@[k] as int,
        decreases n - i,
    {
        let c = s.get_char(i);
        let code = c as u32;
        r.push(code as i64);
        i = i + 1;
    }
    assert(int_seq(r@) =~= char_codes(s@));
    r
}

// ---- Ordering of tasks ----

/// The title key of a task, as code points.
pub open spec fn title_codes(t: Task) -> Seq<int> {
    char_codes(pinyin_key(t.title@))
}

/// `a` must come strictly before `b` in a column sorted by `config`.
///
/// Priority: lower numbers first when ascending. Due date: earlier first when
/// ascending; a task without a due date always comes after one with a due
/// date, in either direction. Title: by pinyin key. Manual: no task comes
/// before another (the stored order stands).
pub open spec fn precedes(config: SortConfig, a: Task, b: Task) -> bool {
    match config.field {
        SortField::Manual => false,
        SortField::Priority => if config.direction {
            a.priority < b.priority
        } else {
            b.priority < a.priority
        },
        SortField::DueDate => match (a.due_at, b.due_at) {
            (Some(x), Some(y)) => if config.direction {
                x < y
            } else {
                y < x
            },
            (Some(_), None) => true,
            _ => false,
        },
        SortField::Title => if config.direction {
            seq_lt(title_codes(a), title_codes(b))
        } else {
            seq_lt(title_codes(b), title_codes(a))
        },
    }
}

/// `result` is `input` stably sorted by `config`, with `p` saying which
/// input position each output position holds.
pub open spec fn is_stable_sort_by(result: Seq<Task>, input: Seq<Task>, config: SortConfig, p: Seq<int>) -> bool {
    &&& result.len() == input.len()
    &&& is_permutation(p, input.len() as int)
    &&& forall|i: int| 0 <= i < result.len() ==> #[trigger] result[i] == input[p[i]]
    &&& forall|i: int, j: int| 0 <= i < j < result.len() ==>
        !precedes(config, #[trigger] result[j], #[trigger] result[i])
    &&& forall|i: int, j: int| 0 <= i < j < result.len()
        && !precedes(config, #[trigger] result[i], #[trigger] result[j])
        && !precedes(config, result[j], result[i]) ==> p[i] < p[j]
}

/// `result` is `input` stably sorted by `config`: the same tasks, in an order
/// where no task precedes an earlier one, and tasks that neither precedes
/// keep their input order.
pub open spec fn is_stable_sort(result: Seq<Task>, input: Seq<Task>, config: SortConfig) -> bool {
    exists|p: Seq<int>| is_stable_sort_by(result, input, config, p)
}

/// The integer key a task is sorted by (for the non-manual fields).
pub open spec fn task_key(config: SortConfig, t: Task) -> Seq<int> {
    match config.field {
        SortField::Priority => seq![t.priority as int],
        SortField::DueDate => match t.due_at {
            Some(d) => seq![0, if config.direction { d as int } else { -(d as int) }],
            None => seq![1],
        },
        SortField::Title => title_codes(t),
        SortField::Manual => Seq::empty(),
    }
}

/// The direction in which task keys are compared.
pub open spec fn key_direction(config: SortConfig) -> bool {
    match config.field {
        SortField::DueDate => true,
        _ => config.direction,
    }
}

proof fn lemma_seq_lt_singletons(x: int, y: int)
    ensures
        seq_lt(seq![x], seq![y]) == (x < y),
{
    assert(seq![x].drop_first() =~= Seq::<int>::empty());
    assert(seq![y].drop_first() =~= Seq::<int>::empty());
    assert(!seq_lt(Seq::<int>::empty(), Seq::<int>::empty()));
    assert(seq![x][0] == x && seq![y][0] == y);
}

proof fn lemma_seq_lt_pairs(c: int, x: int, y: int)
    ensures
        seq_lt(seq![c, x], seq![c, y]) == (x < y),
{
    assert(seq![c, x].drop_first() =~= seq![x]);
    assert(seq![c, y].drop_first() =~= seq![y]);
    lemma_seq_lt_singletons(x, y);
}

proof fn lemma_precedes_by_key(config: SortConfig, a: Task, b: Task)
    requires
        config.field != SortField::Manual,
    ensures
        precedes(config, a, b) == key_before(key_direction(config), task_key(config, a), task_key(config, b)),
        !precedes(config, a, b) && !precedes(config, b, a) ==> task_key(config, a) == task_key(config, b),
{
    let ka = task_key(config, a);
    let kb = task_key(config, b);
    if ka != kb {
        lemma_seq_lt_total(ka, kb);
    }
    match config.field {
        SortField::DueDate => {
            match (a.due_at, b.due_at) {
                (Some(x), Some(y)) => {
                    let kx = if config.direction { x as int } else { -(x as int) };
                    let ky = if config.direction { y as int } else { -(y as int) };
                    lemma_seq_lt_pairs(0, kx, ky);
                    lemma_seq_lt_pairs(0, ky, kx);
                },
                (None, None) => {
                    crate::order::lemma_seq_lt_irreflexive(ka);
                },
                (Some(x), None) => {
                    assert(ka[0] == 0 && kb[0] == 1);
                },
                (None, Some(y)) => {
                    assert(ka[0] == 1 && kb[0] == 0);
                },
            }
        },
        SortField::Priority => {
            lemma_seq_lt_singletons(a.priority as int, b.priority as int);
            lemma_seq_lt_singletons(b.priority as int, a.priority as int);
        },
        _ => {},
    }
}

fn task_sort_key(config: SortConfig, t: &Task) -> (k: Vec<i64>)
    requires
        config.field != SortField::Manual,
    ensures
        int_seq(k@) == task_key(config, *t),
{
    let mut k: Vec<i64> = Vec::new();
    match config.field {
        SortField::Priority => {
            k.push(t.priority as i64);
        },
        SortField::DueDate => {
            match t.due_at {
                Some(d) => {
                    k.push(0);
                    if config.direction {
                        k.push(d as i64);
                    } else {
                        k.push(-(d as i64));
                    }
                },
                None => {
                    k.push(1);
                },
            }
        },
        _ => {
            let key = pinyin_sort_key(t.title.as_str());
            k = string_codes(key.as_str());
        },
    }
    assert(int_seq(k@) =~= task_key(config, *t));
    k
}

/// Sort tasks in place according to `config`.
///
/// For `Manual` mode, tasks are assumed to already be in DB `sort_key` order:
/// ascending keeps that order and descending simply reverses it. The other
/// modes sort stably, so tasks that compare equal keep their relative order.
pub fn sort_tasks(tasks: &mut Vec<Task>, config: SortConfig)
    ensures
        config.field == SortField::Manual && config.direction ==> final(tasks)@ == old(tasks)@,
        config.field == SortField::Manual && !config.direction ==> final(tasks)@ == old(tasks)@.reverse(),
        config.field != SortField::Manual ==> is_stable_sort(final(tasks)@, old(tasks)@, config),
{
    if config.field == SortField::Manual {
        if config.direction {
            return;
        }
        let ghost orig = tasks@;
        let mut out: Vec<Task> = Vec::new();
        while tasks.len() > 0
            invariant
                tasks@ == orig.take(tasks.len() as int),
                out.len() + tasks.len() == orig.len(),
                forall|k: int| 0 <= k < out.len() ==> #[trigger] out@[k] == orig[orig.len() - 1 - k],
            decreases tasks.len(),
        {
            let ghost before = tasks@;
            match tasks.pop() {
                Some(t) => {
                    out.push(t);
                },
                None => {},
            }
            assert(tasks@ =~= orig.take(tasks.len() as int));
        }
        assert(out@ =~= orig.reverse());
        *tasks = out;
        return;
    }
    let ghost orig = tasks@;
    let mut keys: Vec<Vec<i64>> = Vec::new();
    let mut i: usize = 0;
    while i < tasks.len()
        invariant
            tasks@ == orig,
            config.field != SortField::Manual,
            keys.len() == i,
            i <= tasks.len(),
            forall|k: int| 0 <= k < i ==> #[trigger] key_at(keys@, k) == task_key(config, orig[k]),
        decreases tasks.len() - i,
    {
        let k = task_sort_key(config, &tasks[i]);
        let ghost before = keys@;
        keys.push(k);
        assert forall|j: int| 0 <= j < i + 1 implies #[trigger] key_at(keys@, j) == task_key(config, orig[j]) by {
            if j < i {
                assert(keys@[j] == before[j]);
                assert(key_at(before, j) == task_key(config, orig[j]));
            }
        }
        i = i + 1;
    }
    let ghost keys0 = keys@;
    let ascending = match config.field {
        SortField::DueDate => true,
        _ => config.direction,
    };
    let perm = sort_by_keys(&mut keys, tasks, ascending);
    proof {
        let p = perm@;
        let r = tasks@;
        assert forall|k: int| 0 <= k < r.len() implies #[trigger] key_at(keys@, k) == task_key(config, r[k]) by {
            assert(r[k] == orig[p[k]]);
            assert(keys@[k] == keys0[p[k]]);
            assert(key_at(keys0, p[k]) == task_key(config, orig[p[k]]));
        }
        assert forall|a: int, b: int| 0 <= a < b < r.len() implies
            !precedes(config, #[trigger] r[b], #[trigger] r[a]) by {
            assert(key_at(keys@, a) == task_key(config, r[a]));
            assert(key_at(keys@, b) == task_key(config, r[b]));
            lemma_precedes_by_key(config, r[b], r[a]);
        }
        assert forall|a: int, b: int| 0 <= a < b < r.len()
            && !precedes(config, #[trigger] r[a], #[trigger] r[b])
            && !precedes(config, r[b], r[a]) implies p[a] < p[b] by {
            assert(key_at(keys@, a) == task_key(config, r[a]));
            assert(key_at(keys@, b) == task_key(config, r[b]));
            lemma_precedes_by_key(config, r[a], r[b]);
        }
        assert(is_stable_sort_by(r, orig, config, p));
    }
}

} // verus!

verus! {

// ---- Laws of sorting ----

/// No task in `s` precedes an earlier one.
pub open spec fn is_sorted_by(s: Seq<Task>, config: SortConfig) -> bool {
    forall|i: int, j: int| 0 <= i < j < s.len() ==> !precedes(config, #[trigger] s[j], #[trigger] s[i])
}

proof fn lemma_increasing_perm_lower(p: Seq<int>, n: int, i: int)
    requires
        is_permutation(p, n),
        forall|a: int, b: int| 0 <= a < b < n ==> #[trigger] p[a] < #[trigger] p[b],
        0 <= i < n,
    ensures
        p[i] >= i,
    decreases i,
{
    if i > 0 {
        lemma_increasing_perm_lower(p, n, i - 1);
        assert(p[i - 1] < p[i]);
    }
}

proof fn lemma_increasing_perm_upper(p: Seq<int>, n: int, i: int)
    requires
        is_permutation(p, n),
        forall|a: int, b: int| 0 <= a < b < n ==> #[trigger] p[a] < #[trigger] p[b],
        0 <= i < n,
    ensures
        p[i] <= i,
    decreases n - i,
{
    if i < n - 1 {
        lemma_increasing_perm_upper(p, n, i + 1);
        assert(p[i] < p[i + 1]);
    }
}

/// A stable sort of a column that is already sorted leaves it unchanged.
pub proof fn lemma_sorted_input_unchanged(result: Seq<Task>, input: Seq<Task>, config: SortConfig)
    requires
        is_stable_sort(result, input, config),
        is_sorted_by(input, config),
    ensures
        result == input,
{
    let p = choose|p: Seq<int>| is_stable_sort_by(result, input, config, p);
    let n = input.len() as int;
    assert forall|a: int, b: int| 0 <= a < b < n implies #[trigger] p[a] < #[trigger] p[b] by {
        if !precedes(config, result[a], result[b]) && !precedes(config, result[b], result[a]) {
        } else {
            assert(!precedes(config, result[b], result[a]));
            assert(result[a] == input[p[a]]);
            assert(result[b] == input[p[b]]);
            if p[b] < p[a] {
                assert(!precedes(config, input[p[a]], input[p[b]]));
            }
            assert(p[a] != p[b]);
        }
    }
    assert forall|i: int| 0 <= i < n implies #[trigger] result[i] == input[i] by {
        lemma_increasing_perm_lower(p, n, i);
        lemma_increasing_perm_upper(p, n, i);
    }
    assert(result =~= input);
}

/// Sorting a column twice by the same configuration gives the same order as
/// sorting it once.
pub proof fn lemma_sort_idempotent(once: Seq<Task>, twice: Seq<Task>, input: Seq<Task>, config: SortConfig)
    requires
        is_stable_sort(once, input, config),
        is_stable_sort(twice, once, config),
    ensures
        twice == once,
{
    assert(is_sorted_by(once, config));
    lemma_sorted_input_unchanged(twice, once, config);
}

/// In a column sorted by due date, in either direction, every task without a
/// due date comes after every task with one.
pub proof fn lemma_undated_tasks_last(result: Seq<Task>, input: Seq<Task>, config: SortConfig, i: int, j: int)
    requires
        config.field == SortField::DueDate,
        is_stable_sort(result, input, config),
        0 <= i < j < result.len(),
        result[i].due_at is None,
    ensures
        result[j].due_at is None,
{
    let p = choose|p: Seq<int>| is_stable_sort_by(result, input, config, p);
    assert(!precedes(config, result[j], result[i]));
}

/// When the sort tells no two tasks of a column apart (for example, none has
/// a due date and the column is sorted by due date), the column keeps its order.
pub proof fn lemma_ties_keep_input_order(result: Seq<Task>, input: Seq<Task>, config: SortConfig)
    requires
        is_stable_sort(result, input, config),
        forall|i: int, j: int| 0 <= i < input.len() && 0 <= j < input.len()
            ==> !precedes(config, #[trigger] input[i], #[trigger] input[j]),
    ensures
        result == input,
{
    assert(is_sorted_by(input, config));
    lemma_sorted_input_unchanged(result, input, config);
}

/// Reversing a manually ordered column twice restores it.
pub proof fn lemma_manual_descending_twice(s: Seq<Task>)
    ensures
        s.reverse().reverse() == s,
{
    assert(s.reverse().reverse() =~= s);
}

// ---- Laws of title keys ----

/// The key of two texts one after the other is the key of the first followed
/// by the key of the second.
pub proof fn lemma_pinyin_key_concat(a: Seq<char>, b: Seq<char>)
    ensures
        pinyin_key(a + b) == pinyin_key(a) + pinyin_key(b),
    decreases b.len(),
{
    if b.len() == 0 {
        assert(a + b =~= a);
        assert(pinyin_key(a) + pinyin_key(b) =~= pinyin_key(a));
    } else {
        lemma_pinyin_key_concat(a, b.drop_last());
        assert((a + b).drop_last() =~= a + b.drop_last());
        assert((a + b).last() == b.last());
        assert(pinyin_key(a) + pinyin_key(b) =~= pinyin_key(a) + pinyin_key(b.drop_last()) + char_title_key(b.last()));
    }
}

/// An ASCII letter or digit.
pub open spec fn is_ascii_alphanumeric(c: char) -> bool {
    ('0' <= c <= '9') || ('a' <= c <= 'z') || ('A' <= c <= 'Z')
}

/// In a title key an ASCII character stays as it is, and any other character
/// becomes an ASCII one that sorts after every ASCII letter and digit, as
/// the character itself does by code point.
pub proof fn lemma_fold_keeps_ascii_and_lifts_the_rest(c: char)
    ensures
        (c as u32) < 128 ==> ascii_fold(c) == c,
        (c as u32) >= 128 ==> forall|d: char| is_ascii_alphanumeric(d) ==> (d as u32) < (ascii_fold(c) as u32),
        (ascii_fold(c) as u32) < 128,
{
}

/// A title whose first character has no pinyin and lowercases to a
/// non-ASCII character (Cyrillic, Greek, an accented letter, ...) sorts after
/// a title whose key starts with an ASCII letter or digit when titles are
/// ascending, and before it when descending.
pub proof fn lemma_non_ascii_title_after_ascii_title(a: Task, b: Task)
    requires
        pinyin_key(a.title@).len() > 0,
        is_ascii_alphanumeric(pinyin_key(a.title@)[0]),
        b.title@.len() > 0,
        plain_pinyin(b.title@[0]) is None,
        lowercase_of(b.title@[0]).len() > 0,
        (lowercase_of(b.title@[0])[0] as u32) >= 128,
    ensures
        precedes(SortConfig { field: SortField::Title, direction: true }, a, b),
        precedes(SortConfig { field: SortField::Title, direction: false }, b, a),
        !precedes(SortConfig { field: SortField::Title, direction: true }, b, a),
{
    let t = b.title@;
    let head = seq![t[0]];
    let rest = t.skip(1);
    assert(t =~= head + rest);
    lemma_pinyin_key_concat(head, rest);
    assert(head.drop_last() =~= Seq::<char>::empty());
    assert(head.last() == t[0]);
    assert(pinyin_key(head.drop_last()) =~= Seq::<char>::empty());
    assert(pinyin_key(head) == pinyin_key(head.drop_last()) + char_title_key(head.last()));
    assert(pinyin_key(head) =~= char_title_key(t[0]));
    let low = lowercase_of(t[0]);
    assert(char_title_key(t[0]) == fold_ascii(low));
    assert(fold_ascii(low)[0] == ascii_fold(low[0]));
    assert(pinyin_key(t)[0] == '~');
    let ka = title_codes(a);
    let kb = title_codes(b);
    assert(kb[0] == '~' as int);
    assert(ka[0] < kb[0]);
    lemma_seq_lt_at(ka, kb, 0);
    if seq_lt(kb, ka) {
        assert(kb.len() > 0 && ka.len() > 0);
        assert(kb[0] > ka[0]);
        assert(false);
    }
}

} // verus!
