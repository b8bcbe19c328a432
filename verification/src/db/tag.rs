use vstd::prelude::*;
use std::collections::HashMap;

verus! {

broadcast use vstd::std_specs::hash::group_hash_axioms;

/// The tag names the rows give for `task_id`, in row order.
pub open spec fn tag_names_for(rows: Seq<(i64, String)>, task_id: i64) -> Seq<String>
    decreases rows.len(),
{
    if rows.len() == 0 {
        Seq::empty()
    } else {
        let earlier = tag_names_for(rows.drop_last(), task_id);
        if rows.last().0 == task_id {
            earlier.push(rows.last().1)
        } else {
            earlier
        }
    }
}

/// A row belongs to task `task_id`.
pub open spec fn row_of_task(task_id: i64) -> spec_fn((i64, String)) -> bool {
    |row: (i64, String)| row.0 == task_id
}

/// The tag name of a row.
pub open spec fn row_name() -> spec_fn((i64, String)) -> String {
    |row: (i64, String)| row.1
}

/// The tag names of a task are exactly the names of the rows with its id, in
/// row order: the rows kept by id, then taken to their names. No row is left
/// out and none is added.
pub proof fn lemma_tag_names_are_rows_of_task(rows: Seq<(i64, String)>, task_id: i64)
    ensures
        tag_names_for(rows, task_id)
            == rows.filter(row_of_task(task_id)).map_values(row_name()),
    decreases rows.len(),
{
    if rows.len() > 0 {
        lemma_tag_names_are_rows_of_task(rows.drop_last(), task_id);
        let f = rows.drop_last().filter(row_of_task(task_id));
        reveal(Seq::filter);
        assert(row_of_task(task_id)(rows.last()) == (rows.last().0 == task_id));
        assert(rows.filter(row_of_task(task_id)) == (if rows.last().0 == task_id {
            f.push(rows.last())
        } else {
            f
        }));
        if rows.last().0 == task_id {
            assert(f.push(rows.last()).map_values(row_name())
                =~= f.map_values(row_name()).push(rows.last().1));
        }
    } else {
        reveal(Seq::filter);
        assert(rows.filter(row_of_task(task_id)).map_values(row_name())
            =~= Seq::<String>::empty());
    }
}

/// Every row's name is among the tag names of its task, and a task has as
/// many tag names as there are rows with its id.
pub proof fn lemma_every_row_counted(rows: Seq<(i64, String)>, i: int)
    requires
        0 <= i < rows.len(),
    ensures
        tag_names_for(rows, rows[i].0).contains(rows[i].1),
        tag_names_for(rows, rows[i].0).len() > 0,
{
    let id = rows[i].0;
    lemma_tag_names_are_rows_of_task(rows, id);
    let pred = row_of_task(id);
    rows.lemma_filter_contains(pred, i);
    let f = rows.filter(pred);
    let k = choose|k: int| 0 <= k < f.len() && f[k] == rows[i];
    assert(f.map_values(row_name())[k] == rows[i].1);
}

/// Groups `(task_id, tag_name)` rows into a map from task id to its tag
/// names. A task appears in the map exactly when some row names it, and its
/// names are listed in the order the rows give them.
pub fn group_tag_rows(rows: &Vec<(i64, String)>) -> (r: HashMap<i64, Vec<String>>)
    ensures
        forall|id: i64| r@.contains_key(id) <==> tag_names_for(rows@, id).len() > 0,
        forall|id: i64| #[trigger] r@.contains_key(id) ==> r@[id]@ == tag_names_for(rows@, id),
        forall|id: i64| #[trigger] r@.contains_key(id) ==> r@[id]@
            == rows@.filter(row_of_task(id)).map_values(row_name()),
        forall|i: int| 0 <= i < rows.len() ==> r@.contains_key(#[trigger] rows@[i].0)
            && r@[rows@[i].0]@.contains(rows@[i].1),
        forall|id: i64| #[trigger] r@.contains_key(id) ==> r@[id]@.len() > 0,
{
    let mut result: HashMap<i64, Vec<String>> = HashMap::new();
    let mut i: usize = 0;
    while i < rows.len()
        invariant
            i <= rows.len(),
            forall|id: i64| result@.contains_key(id) <==> tag_names_for(rows@.take(i as int), id).len() > 0,
            forall|id: i64| #[trigger] result@.contains_key(id) ==> result@[id]@ == tag_names_for(rows@.take(i as int), id),
        decreases rows.len() - i,
    {
        let task_id = rows[i].0;
        let name = rows[i].1.clone();
        let ghost prefix = rows@.take(i as int);
        let ghost next_prefix = rows@.take(i as int + 1);
        assert(next_prefix.drop_last() =~= prefix);
        assert(next_prefix.last() == rows@[i as int]);
        let ghost before = result@;
        match result.remove(&task_id) {
            Some(mut names) => {
                names.push(name);
                result.insert(task_id, names);
            },
            None => {
                let mut names: Vec<String> = Vec::new();
                names.push(name);
                result.insert(task_id, names);
            },
        }
        proof {
            assert forall|id: i64| result@.contains_key(id) <==> tag_names_for(next_prefix, id).len() > 0 by {
                if id != task_id {
                    assert(tag_names_for(next_prefix, id) == tag_names_for(prefix, id));
                }
            }
            assert forall|id: i64| #[trigger] result@.contains_key(id) implies result@[id]@ == tag_names_for(next_prefix, id) by {
                if id != task_id {
                    assert(tag_names_for(next_prefix, id) == tag_names_for(prefix, id));
                } else {
                    if before.contains_key(id) {
                    } else {
                        assert(tag_names_for(prefix, id).len() == 0);
                        assert(tag_names_for(prefix, id) =~= Seq::<String>::empty());
                    }
                }
            }
        }
        i = i + 1;
    }
    assert(rows@.take(rows.len() as int) =~= rows@);
    proof {
        assert forall|id: i64| #[trigger] result@.contains_key(id) implies result@[id]@
            == rows@.filter(row_of_task(id)).map_values(row_name()) by {
            lemma_tag_names_are_rows_of_task(rows@, id);
        }
        assert forall|i: int| 0 <= i < rows.len() implies result@.contains_key(#[trigger] rows@[i].0)
            && result@[rows@[i].0]@.contains(rows@[i].1) by {
            lemma_every_row_counted(rows@, i);
        }
    }
    result
}

/// The `?, ?, ...` list of `n` SQL placeholders, comma-separated.
pub open spec fn placeholder_list(n: nat) -> Seq<char>
    decreases n,
{
    if n == 0 {
        Seq::empty()
    } else if n == 1 {
        seq!['?']
    } else {
        placeholder_list((n - 1) as nat) + seq![',', '?']
    }
}

/// The placeholder list for an `IN (...)` clause over `n` values.
pub fn in_list_placeholders(n: usize) -> (r: String)
    ensures
        r@ == placeholder_list(n as nat),
{
    let mut r = String::new();
    let mut i: usize = 0;
    while i < n
        invariant
            i <= n,
            r@ == placeholder_list(i as nat),
        decreases n - i,
    {
        if i == 0 {
            let q = "?";
            proof {
                reveal_strlit("?");
            }
            r.append(q);
        } else {
            let sep = ",?";
            proof {
                reveal_strlit(",?");
            }
            r.append(sep);
        }
        i = i + 1;
    }
    r
}

} // verus!
