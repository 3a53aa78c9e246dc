//! Insertion sorts over index sequences, and the list's priority partition.
use std::cmp::Ordering;
use vstd::prelude::*;

use crate::calendar::UtcOffset;
use crate::ordering::{
    compare_tasks, compare_text, due_kinds_agree, lemma_task_not_before, lemma_tasks_order_chained,
    lemma_text_not_before, no_due_key, task_before, task_not_after, text_before, text_ties,
};
use crate::query::SortSpec;
use crate::task::{Priority, Task, TaskView};

use crate::seqs::{lemma_filter_push, lemma_filter_subset};

verus! {

/// `p` lists each of the indices `0..n` once.
pub open spec fn is_index_permutation(p: Seq<usize>, n: int) -> bool {
    &&& p.len() == n
    &&& forall|i: int| 0 <= i < p.len() ==> p[i] < n
    &&& p.no_duplicates()
}

/// The views of a sequence of tasks.
pub open spec fn views(v: Seq<Task>) -> Seq<TaskView> {
    v.map_values(|t: Task| t@)
}

/// Every pair of neighbours in `order` keeps the sort keys' order.
pub open spec fn index_order_sorted(tasks: Seq<Task>, order: Seq<usize>, sort: Seq<SortSpec>, offset: UtcOffset) -> bool {
    forall|k: int|
        0 <= k < order.len() - 1 ==> task_not_after(
            #[trigger] tasks[order[k] as int]@,
            tasks[order[k + 1] as int]@,
            sort,
            offset,
        )
}

/// Every pair of neighbours in `s` keeps the sort keys' order.
pub open spec fn neighbours_sorted(s: Seq<TaskView>, sort: Seq<SortSpec>, offset: UtcOffset) -> bool {
    forall|k: int| 0 <= k < s.len() - 1 ==> task_not_after(#[trigger] s[k], s[k + 1], sort, offset)
}

/// No task of `s` has a date due while another has an instant due.
pub open spec fn dues_of_one_kind(s: Seq<TaskView>) -> bool {
    forall|i: int, j: int| 0 <= i < s.len() && 0 <= j < s.len() ==> !(#[trigger] s[i].due is Date && #[trigger] s[j].due is DateTime)
}

/// A list whose neighbours are in order is in order pairwise, unless a due key
/// compares dated tasks with timed ones.
pub proof fn lemma_sorted_pairwise(s: Seq<TaskView>, sort: Seq<SortSpec>, offset: UtcOffset)
    requires
        neighbours_sorted(s, sort, offset),
        no_due_key(sort) || dues_of_one_kind(s),
    ensures
        forall|i: int, j: int| 0 <= i < j < s.len() ==> task_not_after(#[trigger] s[i], #[trigger] s[j], sort, offset),
{
    assert forall|i: int, j: int| 0 <= i < j < s.len() implies task_not_after(#[trigger] s[i], #[trigger] s[j], sort, offset) by {
        lemma_sorted_pair(s, sort, offset, i, j);
    }
}

proof fn lemma_sorted_pair(s: Seq<TaskView>, sort: Seq<SortSpec>, offset: UtcOffset, i: int, j: int)
    requires
        neighbours_sorted(s, sort, offset),
        no_due_key(sort) || dues_of_one_kind(s),
        0 <= i < j < s.len(),
    ensures
        task_not_after(s[i], s[j], sort, offset),
    decreases j - i,
{
    assert(task_not_after(s[j - 1], s[j], sort, offset));
    if j > i + 1 {
        lemma_sorted_pair(s, sort, offset, i, j - 1);
        assert(dues_of_one_kind(s) ==> due_kinds_agree(s[i].due, s[j - 1].due, s[j].due)) by {
            if dues_of_one_kind(s) {
                assert(!(s[i].due is Date && s[j - 1].due is DateTime));
                assert(!(s[i].due is Date && s[j].due is DateTime));
                assert(!(s[j - 1].due is Date && s[i].due is DateTime));
                assert(!(s[j - 1].due is Date && s[j].due is DateTime));
                assert(!(s[j].due is Date && s[i].due is DateTime));
                assert(!(s[j].due is Date && s[j - 1].due is DateTime));
            }
        }
        lemma_tasks_order_chained(s[i], s[j - 1], s[j], sort, offset);
    }
}

/// `r` is `tasks` rearranged by some permutation of its positions.
pub open spec fn is_rearrangement(r: Seq<TaskView>, tasks: Seq<TaskView>) -> bool {
    exists|p: Seq<usize>|
        #![trigger is_index_permutation(p, tasks.len() as int)]
        is_index_permutation(p, tasks.len() as int) && r.len() == tasks.len() && forall|i: int|
            0 <= i < r.len() ==> #[trigger] r[i] == tasks[p[i] as int]
}

/// Inserting a new largest index `i` at `p` keeps the indices distinct and bounded.
proof fn lemma_insert_index(prev: Seq<usize>, order: Seq<usize>, p: int, i: int)
    requires
        0 <= p <= prev.len(),
        0 <= i < usize::MAX,
        order == prev.insert(p, i as usize),
        forall|k: int| 0 <= k < prev.len() ==> prev[k] < i,
        prev.no_duplicates(),
    ensures
        order.len() == prev.len() + 1,
        forall|k: int| 0 <= k < p ==> order[k] == prev[k],
        order[p] == i,
        forall|k: int| p < k < order.len() ==> order[k] == prev[k - 1],
        forall|k: int| 0 <= k < order.len() ==> order[k] < i + 1,
        order.no_duplicates(),
{
    assert forall|k: int| 0 <= k < order.len() implies order[k] < i + 1 by {
        if k < p {
            assert(order[k] == prev[k]);
        } else if k > p {
            assert(order[k] == prev[k - 1]);
        }
    }
    assert forall|a: int, b: int|
        0 <= a < order.len() && 0 <= b < order.len() && a != b implies order[a] != order[b] by {
        let va = if a < p { prev[a] } else if a == p { i as usize } else { prev[a - 1] };
        let vb = if b < p { prev[b] } else if b == p { i as usize } else { prev[b - 1] };
        assert(order[a] == va);
        assert(order[b] == vb);
    }
}

proof fn lemma_insert_keeps_order(
    tasks: Seq<Task>,
    prev: Seq<usize>,
    order: Seq<usize>,
    p: int,
    i: int,
    sort: Seq<SortSpec>,
    offset: UtcOffset,
)
    requires
        0 <= p <= prev.len(),
        0 <= i < tasks.len(),
        i < usize::MAX,
        order == prev.insert(p, i as usize),
        forall|k: int| 0 <= k < prev.len() ==> prev[k] < i,
        prev.no_duplicates(),
        index_order_sorted(tasks, prev, sort, offset),
        p > 0 ==> task_not_after(tasks[prev[p - 1] as int]@, tasks[i]@, sort, offset),
        p < prev.len() ==> task_before(tasks[i]@, tasks[prev[p] as int]@, sort, offset),
    ensures
        forall|k: int| 0 <= k < order.len() ==> order[k] < i + 1,
        order.no_duplicates(),
        index_order_sorted(tasks, order, sort, offset),
{
    lemma_insert_index(prev, order, p, i);
    assert forall|k: int| 0 <= k < order.len() - 1 implies task_not_after(
        #[trigger] tasks[order[k] as int]@,
        tasks[order[k + 1] as int]@,
        sort,
        offset,
    ) by {
        if k + 1 < p {
            assert(order[k] == prev[k]);
            assert(order[k + 1] == prev[k + 1]);
        } else if k + 1 == p {
            assert(order[k] == prev[k]);
            assert(order[k + 1] == i);
        } else if k == p {
            assert(order[k] == i);
            assert(order[k + 1] == prev[k]);
        } else {
            assert(order[k] == prev[k - 1]);
            assert(order[k + 1] == prev[k]);
        }
    }
}

/// Whether `a` comes strictly before `b` under the sort keys.
fn task_precedes(a: &Task, b: &Task, sort: &[SortSpec], offset: &UtcOffset) -> (r: bool)
    requires
        a.wf(),
        b.wf(),
        offset.wf(),
    ensures
        r == task_before(a@, b@, sort@, *offset),
{
    match compare_tasks(a, b, sort, offset) {
        Ordering::Less => true,
        _ => false,
    }
}

/// Whether `a` comes strictly before `b` in text order.
pub fn text_precedes(a: &Vec<char>, b: &Vec<char>) -> (r: bool)
    ensures
        r == text_before(a@, b@),
{
    match compare_text(a, b) {
        Ordering::Less => true,
        _ => false,
    }
}

/// The positions of `tasks` in the order of the sort keys: a permutation in which
/// no neighbour pair is out of order. Equal tasks keep their relative order.
pub fn task_sort_order(tasks: &Vec<Task>, sort: &[SortSpec], offset: &UtcOffset) -> (r: Vec<usize>)
    requires
        forall|i: int| 0 <= i < tasks.len() ==> (#[trigger] tasks@[i]).wf(),
        offset.wf(),
    ensures
        is_index_permutation(r@, tasks.len() as int),
        index_order_sorted(tasks@, r@, sort@, *offset),
{
    let n = tasks.len();
    let mut order: Vec<usize> = Vec::new();
    let mut i: usize = 0;
    while i < n
        invariant
            i <= n == tasks.len(),
            offset.wf(),
            forall|j: int| 0 <= j < tasks.len() ==> (#[trigger] tasks@[j]).wf(),
            order.len() == i,
            forall|k: int| 0 <= k < order.len() ==> order@[k] < i,
            order@.no_duplicates(),
            index_order_sorted(tasks@, order@, sort@, *offset),
        decreases n - i,
    {
        let mut p: usize = i;
        while p > 0 && task_precedes(&tasks[i], &tasks[order[p - 1]], sort, offset)
            invariant
                p <= i < n == tasks.len(),
                order.len() == i,
                offset.wf(),
                forall|j: int| 0 <= j < tasks.len() ==> (#[trigger] tasks@[j]).wf(),
                forall|k: int| 0 <= k < order.len() ==> order@[k] < i,
                forall|q: int|
                    p <= q < i ==> task_before(tasks@[i as int]@, #[trigger] tasks@[order@[q] as int]@, sort@, *offset),
            decreases p,
        {
            p = p - 1;
        }
        let ghost prev = order@;
        proof {
            if p > 0 {
                lemma_task_not_before(tasks@[i as int]@, tasks@[prev[p - 1] as int]@, sort@, *offset);
            }
        }
        order.insert(p, i);
        proof {
            lemma_insert_keeps_order(tasks@, prev, order@, p as int, i as int, sort@, *offset);
        }
        i = i + 1;
    }
    order
}

/// The tasks in the order of the sort keys (`sort_by(compare_tasks)`).
pub fn sort_tasks(tasks: &Vec<Task>, sort: &[SortSpec], offset: &UtcOffset) -> (r: Vec<Task>)
    requires
        forall|i: int| 0 <= i < tasks.len() ==> (#[trigger] tasks@[i]).wf(),
        offset.wf(),
    ensures
        is_rearrangement(views(r@), views(tasks@)),
        neighbours_sorted(views(r@), sort@, *offset),
        forall|i: int| 0 <= i < r.len() ==> (#[trigger] r@[i]).wf(),
{
    let order = task_sort_order(tasks, sort, offset);
    let mut out: Vec<Task> = Vec::new();
    let mut k: usize = 0;
    while k < order.len()
        invariant
            k <= order.len() == tasks.len(),
            is_index_permutation(order@, tasks.len() as int),
            out.len() == k,
            forall|j: int| 0 <= j < k ==> (#[trigger] out@[j])@ == tasks@[order@[j] as int]@,
            forall|j: int| 0 <= j < tasks.len() ==> (#[trigger] tasks@[j]).wf(),
            forall|j: int| 0 <= j < out.len() ==> (#[trigger] out@[j]).wf(),
        decreases order.len() - k,
    {
        let t = tasks[order[k]].copy();
        out.push(t);
        k = k + 1;
    }
    proof {
        let rv = views(out@);
        let tv = views(tasks@);
        assert forall|j: int| 0 <= j < rv.len() implies #[trigger] rv[j] == tv[order@[j] as int] by {
            assert(rv[j] == out@[j]@);
        }
        assert(tv.len() == tasks.len());
        assert(rv.len() == out.len());
        assert(is_index_permutation(order@, tv.len() as int));
        assert(is_rearrangement(rv, tv));
        assert forall|j: int| 0 <= j < rv.len() - 1 implies task_not_after(
            #[trigger] rv[j],
            rv[j + 1],
            sort@,
            *offset,
        ) by {
            assert(rv[j] == tasks@[order@[j] as int]@);
            assert(rv[j + 1] == tasks@[order@[j + 1] as int]@);
        }
    }
    out
}

/// Neighbours of `order` are in strictly increasing (label, position) order.
pub open spec fn labels_ordered(labels: Seq<Seq<char>>, order: Seq<usize>) -> bool {
    forall|k: int|
        0 <= k < order.len() - 1 ==> text_before(
            #[trigger] labels[order[k] as int],
            labels[order[k + 1] as int],
        ) || (text_ties(labels[order[k] as int], labels[order[k + 1] as int]) && order[k] < order[k
            + 1])
}

proof fn lemma_insert_keeps_label_order(
    ls: Seq<Seq<char>>,
    prev: Seq<usize>,
    order: Seq<usize>,
    p: int,
    i: int,
)
    requires
        0 <= p <= prev.len(),
        0 <= i < ls.len(),
        i < usize::MAX,
        order == prev.insert(p, i as usize),
        forall|k: int| 0 <= k < prev.len() ==> prev[k] < i,
        prev.no_duplicates(),
        labels_ordered(ls, prev),
        p > 0 ==> text_before(ls[prev[p - 1] as int], ls[i]) || text_ties(ls[prev[p - 1] as int], ls[i]),
        p < prev.len() ==> text_before(ls[i], ls[prev[p] as int]),
    ensures
        forall|k: int| 0 <= k < order.len() ==> order[k] < i + 1,
        order.no_duplicates(),
        labels_ordered(ls, order),
{
    lemma_insert_index(prev, order, p, i);
    assert forall|k: int| 0 <= k < order.len() - 1 implies text_before(
        #[trigger] ls[order[k] as int],
        ls[order[k + 1] as int],
    ) || (text_ties(ls[order[k] as int], ls[order[k + 1] as int]) && order[k] < order[k + 1]) by {
        if k + 1 < p {
            assert(order[k] == prev[k]);
            assert(order[k + 1] == prev[k + 1]);
        } else if k + 1 == p {
            assert(order[k] == prev[k]);
            assert(order[k + 1] == i);
        } else if k == p {
            assert(order[k] == i);
            assert(order[k + 1] == prev[k]);
        } else {
            assert(order[k] == prev[k - 1]);
            assert(order[k + 1] == prev[k]);
        }
    }
}

/// The positions of `labels` in label order, ties kept in their input order
/// (a stable sort by label).
pub fn stable_label_order(labels: &Vec<Vec<char>>) -> (r: Vec<usize>)
    ensures
        is_index_permutation(r@, labels.len() as int),
        labels_ordered(labels@.map_values(|l: Vec<char>| l@), r@),
{
    let ghost ls = labels@.map_values(|l: Vec<char>| l@);
    let n = labels.len();
    let mut order: Vec<usize> = Vec::new();
    let mut i: usize = 0;
    while i < n
        invariant
            i <= n == labels.len(),
            ls == labels@.map_values(|l: Vec<char>| l@),
            order.len() == i,
            forall|k: int| 0 <= k < order.len() ==> order@[k] < i,
            order@.no_duplicates(),
            labels_ordered(ls, order@),
        decreases n - i,
    {
        let mut p: usize = i;
        while p > 0 && text_precedes(&labels[i], &labels[order[p - 1]])
            invariant
                p <= i < n == labels.len(),
                order.len() == i,
                ls == labels@.map_values(|l: Vec<char>| l@),
                forall|k: int| 0 <= k < order.len() ==> order@[k] < i,
                forall|q: int| p <= q < i ==> text_before(ls[i as int], #[trigger] ls[order@[q] as int]),
            decreases p,
        {
            proof {
                assert(ls[i as int] == labels@[i as int]@);
                assert(ls[order@[p - 1] as int] == labels@[order@[p - 1] as int]@);
            }
            p = p - 1;
        }
        let ghost prev = order@;
        proof {
            if p > 0 {
                assert(ls[i as int] == labels@[i as int]@);
                assert(ls[prev[p - 1] as int] == labels@[prev[p - 1] as int]@);
                lemma_text_not_before(ls[i as int], ls[prev[p - 1] as int]);
                assert(prev[p - 1] < i);
            }
        }
        order.insert(p, i);
        proof {
            lemma_insert_keeps_label_order(ls, prev, order@, p as int, i as int);
        }
        i = i + 1;
    }
    order
}

/// A task pinned to the top of the list: high priority.
pub open spec fn is_high(t: TaskView) -> bool {
    t.priority == Priority::High
}

/// High-priority tasks first, each part in its input order.
pub open spec fn high_first(s: Seq<TaskView>) -> Seq<TaskView> {
    s.filter(|t: TaskView| is_high(t)) + s.filter(|t: TaskView| !is_high(t))
}

/// The list puts high-priority tasks first: in the result, every task before a
/// high-priority task is high-priority too, every high-priority task of the input is
/// in the result, and nothing that was not in the input is.
pub proof fn lemma_high_first(s: Seq<TaskView>)
    ensures
        forall|i: int, j: int|
            0 <= i < j < high_first(s).len() && #[trigger] high_first(s)[j].priority == Priority::High
                ==> #[trigger] high_first(s)[i].priority == Priority::High,
        forall|i: int| 0 <= i < s.len() && s[i].priority == Priority::High ==> high_first(s).contains(#[trigger] s[i]),
        forall|i: int| 0 <= i < high_first(s).len() ==> s.contains(#[trigger] high_first(s)[i]),
{
    broadcast use vstd::seq_lib::group_filter_ensures;
    let hp = |t: TaskView| is_high(t);
    let lp = |t: TaskView| !is_high(t);
    let a = s.filter(hp);
    let b = s.filter(lp);
    let r = high_first(s);
    assert(r == a + b);
    assert forall|i: int, j: int|
        0 <= i < j < r.len() && #[trigger] r[j].priority == Priority::High implies #[trigger] r[i].priority
            == Priority::High by {
        if j >= a.len() {
            assert(r[j] == b[j - a.len()]);
            assert(lp(b[j - a.len()]));
        }
        if i < a.len() {
            assert(r[i] == a[i]);
            assert(hp(a[i]));
        }
    }
    assert forall|i: int| 0 <= i < s.len() && s[i].priority == Priority::High implies r.contains(#[trigger] s[i]) by {
        assert(hp(s[i]));
        assert(a.contains(s[i]));
        let k = choose|k: int| 0 <= k < a.len() && a[k] == s[i];
        assert(r[k] == s[i]);
    }
    assert forall|i: int| 0 <= i < r.len() implies s.contains(#[trigger] r[i]) by {
        lemma_filter_subset(s, hp);
        lemma_filter_subset(s, lp);
        if i < a.len() {
            assert(r[i] == a[i]);
        } else {
            assert(r[i] == b[i - a.len()]);
        }
    }
}

/// Moves high-priority tasks to the front, keeping the order within each part
/// (`sort_by_key(|task| task.priority != High)`).
pub fn prioritize_list_tasks(tasks: &mut Vec<Task>)
    ensures
        views(final(tasks)@) == high_first(views(old(tasks)@)),
        (forall|i: int| 0 <= i < old(tasks).len() ==> (#[trigger] old(tasks)@[i]).wf()) ==> (forall|
            i: int,
        | 0 <= i < final(tasks).len() ==> (#[trigger] final(tasks)@[i]).wf()),
{
    let ghost src = views(tasks@);
    let ghost hp = |t: TaskView| is_high(t);
    let ghost lp = |t: TaskView| !is_high(t);
    let ghost all_wf = forall|i: int| 0 <= i < tasks.len() ==> (#[trigger] tasks@[i]).wf();
    let mut high: Vec<Task> = Vec::new();
    let mut low: Vec<Task> = Vec::new();
    let mut i: usize = 0;
    while i < tasks.len()
        invariant
            i <= tasks.len(),
            src == views(tasks@),
            hp == (|t: TaskView| is_high(t)),
            lp == (|t: TaskView| !is_high(t)),
            views(high@) == src.subrange(0, i as int).filter(hp),
            views(low@) == src.subrange(0, i as int).filter(lp),
            all_wf == (forall|j: int| 0 <= j < tasks.len() ==> (#[trigger] tasks@[j]).wf()),
            all_wf ==> forall|j: int| 0 <= j < high.len() ==> (#[trigger] high@[j]).wf(),
            all_wf ==> forall|j: int| 0 <= j < low.len() ==> (#[trigger] low@[j]).wf(),
        decreases tasks.len() - i,
    {
        let t = tasks[i].copy();
        let ghost v = t@;
        proof {
            assert(src[i as int] == v);
            assert(src.subrange(0, i + 1) == src.subrange(0, i as int).push(v));
            lemma_filter_push(src.subrange(0, i as int), hp, v);
            lemma_filter_push(src.subrange(0, i as int), lp, v);
        }
        if t.priority == Priority::High {
            let ghost before = high@;
            high.push(t);
            proof {
                assert(views(high@) =~= views(before).push(v));
            }
        } else {
            let ghost before = low@;
            low.push(t);
            proof {
                assert(views(low@) =~= views(before).push(v));
            }
        }
        i = i + 1;
    }
    proof {
        assert(src.subrange(0, src.len() as int) == src);
    }
    let ghost hv = views(high@);
    let ghost lv = views(low@);
    let ghost hn = high@;
    let mut out = high;
    let mut k: usize = 0;
    while k < low.len()
        invariant
            k <= low.len(),
            views(out@) == hv + lv.subrange(0, k as int),
            lv == views(low@),
            out.len() == hv.len() + k,
            all_wf ==> forall|j: int| 0 <= j < out.len() ==> (#[trigger] out@[j]).wf(),
            all_wf ==> forall|j: int| 0 <= j < low.len() ==> (#[trigger] low@[j]).wf(),
        decreases low.len() - k,
    {
        let t = low[k].copy();
        let ghost before = out@;
        out.push(t);
        proof {
            assert(lv[k as int] == low@[k as int]@);
            assert(views(out@) =~= views(before).push(lv[k as int]));
            assert(lv.subrange(0, k + 1) == lv.subrange(0, k as int).push(lv[k as int]));
        }
        k = k + 1;
    }
    proof {
        assert(lv.subrange(0, lv.len() as int) == lv);
    }
    *tasks = out;
}

} // verus!
