//! The order of tasks under a list of sort keys, ties broken by identifier text.
use std::cmp::Ordering;
use vstd::prelude::*;

use crate::calendar::{Timestamp, UtcOffset, date_at, local_day};
use crate::ids::{TaskId, hyphenated};
use crate::query::{SortDirection, SortField, SortSpec};
use crate::task::{Due, Priority, Task, TaskView, priority_rank};
use crate::text::{chars_of, index_of, lowercase_chars, lowercased};

verus! {

/// The code point of a character.
pub open spec fn char_code(c: char) -> int {
    c as int
}

/// A 64-bit integer as a mathematical integer.
pub open spec fn wide64(x: i64) -> int {
    x as int
}

/// A 128-bit integer as a mathematical integer.
pub open spec fn wide128(x: i128) -> int {
    x as int
}

/// The order of two integers.
pub open spec fn int_order(a: int, b: int) -> Ordering {
    if a < b {
        Ordering::Less
    } else if a > b {
        Ordering::Greater
    } else {
        Ordering::Equal
    }
}

/// `Ordering::reverse`.
pub open spec fn reversed(o: Ordering) -> Ordering {
    match o {
        Ordering::Less => Ordering::Greater,
        Ordering::Equal => Ordering::Equal,
        Ordering::Greater => Ordering::Less,
    }
}

/// Lexicographic order of two texts by code point (the order of `String`).
pub open spec fn text_order(a: Seq<char>, b: Seq<char>) -> Ordering
    decreases a.len(),
{
    if a.len() == 0 {
        if b.len() == 0 {
            Ordering::Equal
        } else {
            Ordering::Less
        }
    } else if b.len() == 0 {
        Ordering::Greater
    } else if char_code(a[0]) < char_code(b[0]) {
        Ordering::Less
    } else if char_code(a[0]) > char_code(b[0]) {
        Ordering::Greater
    } else {
        text_order(a.drop_first(), b.drop_first())
    }
}

/// Undated tasks come last; a date and an instant compare by the local date of the
/// instant at `offset`.
pub open spec fn due_order(a: Due, b: Due, offset: UtcOffset) -> Ordering {
    match (a, b) {
        (Due::Unset, Due::Unset) => Ordering::Equal,
        (Due::Unset, _) => Ordering::Greater,
        (_, Due::Unset) => Ordering::Less,
        (Due::Date(x), Due::Date(y)) => int_order(x.days(), y.days()),
        (Due::DateTime(x), Due::DateTime(y)) => int_order(wide128(x.nanos), wide128(y.nanos)),
        (Due::Date(x), Due::DateTime(y)) => int_order(x.days(), local_day(y, offset)),
        (Due::DateTime(x), Due::Date(y)) => int_order(local_day(x, offset), y.days()),
    }
}

/// The order of two tasks by one field, ascending.
pub open spec fn field_order(l: TaskView, r: TaskView, field: SortField, offset: UtcOffset) -> Ordering {
    match field {
        SortField::Manual => int_order(wide64(l.sort_order), wide64(r.sort_order)),
        SortField::Priority => int_order(priority_rank(l.priority), priority_rank(r.priority)),
        SortField::Due => due_order(l.due, r.due, offset),
        SortField::UpdatedAt => int_order(wide128(l.updated_at.nanos), wide128(r.updated_at.nanos)),
        SortField::CreatedAt => int_order(wide128(l.created_at.nanos), wide128(r.created_at.nanos)),
        SortField::Title => text_order(lowercased(l.title), lowercased(r.title)),
    }
}

/// `o` in the given direction.
pub open spec fn directed(o: Ordering, direction: SortDirection) -> Ordering {
    match direction {
        SortDirection::Ascending => o,
        SortDirection::Descending => reversed(o),
    }
}

/// The order of the identifiers' texts.
pub open spec fn id_order(a: TaskId, b: TaskId) -> Ordering {
    text_order(hyphenated(a.value), hyphenated(b.value))
}

/// The order of two tasks under the sort keys `sort`: the first key that tells them
/// apart decides; when none does, the identifiers' texts decide.
pub open spec fn tasks_order(l: TaskView, r: TaskView, sort: Seq<SortSpec>, offset: UtcOffset) -> Ordering
    decreases sort.len(),
{
    if sort.len() == 0 {
        id_order(l.id, r.id)
    } else {
        let o = directed(field_order(l, r, sort[0].field, offset), sort[0].direction);
        if o != Ordering::Equal {
            o
        } else {
            tasks_order(l, r, sort.drop_first(), offset)
        }
    }
}

/// `l` does not come after `r` under the sort keys.
pub open spec fn task_not_after(l: TaskView, r: TaskView, sort: Seq<SortSpec>, offset: UtcOffset) -> bool {
    tasks_order(l, r, sort, offset) != Ordering::Greater
}

/// `l` comes strictly before `r` under the sort keys.
pub open spec fn task_before(l: TaskView, r: TaskView, sort: Seq<SortSpec>, offset: UtcOffset) -> bool {
    tasks_order(l, r, sort, offset) == Ordering::Less
}

/// `a` comes strictly before `b` in text order.
pub open spec fn text_before(a: Seq<char>, b: Seq<char>) -> bool {
    text_order(a, b) == Ordering::Less
}

/// `a` and `b` are the same text under text order.
pub open spec fn text_ties(a: Seq<char>, b: Seq<char>) -> bool {
    text_order(a, b) == Ordering::Equal
}

pub proof fn lemma_int_order_antisymmetric(a: int, b: int)
    ensures
        int_order(b, a) == reversed(int_order(a, b)),
{
}

pub proof fn lemma_text_order_antisymmetric(a: Seq<char>, b: Seq<char>)
    ensures
        text_order(b, a) == reversed(text_order(a, b)),
    decreases a.len(),
{
    if a.len() > 0 && b.len() > 0 && char_code(a[0]) == char_code(b[0]) {
        lemma_text_order_antisymmetric(a.drop_first(), b.drop_first());
    }
}

/// Texts that tie under text order are equal.
pub proof fn lemma_text_order_equal(a: Seq<char>, b: Seq<char>)
    requires
        text_order(a, b) == Ordering::Equal,
    ensures
        a == b,
    decreases a.len(),
{
    if a.len() > 0 && b.len() > 0 {
        lemma_text_order_equal(a.drop_first(), b.drop_first());
        assert(a[0] == b[0]);
        assert(a =~= seq![a[0]] + a.drop_first());
        assert(b =~= seq![b[0]] + b.drop_first());
    } else {
        assert(a =~= b);
    }
}

pub proof fn lemma_text_order_reflexive(a: Seq<char>)
    ensures
        text_order(a, a) == Ordering::Equal,
    decreases a.len(),
{
    if a.len() > 0 {
        lemma_text_order_reflexive(a.drop_first());
    }
}

pub proof fn lemma_tasks_order_antisymmetric(
    l: TaskView,
    r: TaskView,
    sort: Seq<SortSpec>,
    offset: UtcOffset,
)
    ensures
        tasks_order(r, l, sort, offset) == reversed(tasks_order(l, r, sort, offset)),
    decreases sort.len(),
{
    if sort.len() == 0 {
        lemma_text_order_antisymmetric(hyphenated(l.id.value), hyphenated(r.id.value));
    } else {
        match sort[0].field {
            SortField::Title => lemma_text_order_antisymmetric(lowercased(l.title), lowercased(r.title)),
            _ => {},
        }
        lemma_tasks_order_antisymmetric(l, r, sort.drop_first(), offset);
    }
}

/// Three comparisons `a`–`b`, `b`–`c` and `a`–`c` fit a total preorder: before then
/// not after (or not after then before) gives before, and two ties give a tie.
pub open spec fn chained(ab: Ordering, bc: Ordering, ac: Ordering) -> bool {
    &&& (ab == Ordering::Less && bc != Ordering::Greater) ==> ac == Ordering::Less
    &&& (ab != Ordering::Greater && bc == Ordering::Less) ==> ac == Ordering::Less
    &&& (ab == Ordering::Equal && bc == Ordering::Equal) ==> ac == Ordering::Equal
}

/// Text order is a total preorder.
pub proof fn lemma_text_order_chained(a: Seq<char>, b: Seq<char>, c: Seq<char>)
    ensures
        chained(text_order(a, b), text_order(b, c), text_order(a, c)),
    decreases a.len(),
{
    if a.len() > 0 && b.len() > 0 && c.len() > 0 && char_code(a[0]) == char_code(b[0]) && char_code(b[0])
        == char_code(c[0]) {
        lemma_text_order_chained(a.drop_first(), b.drop_first(), c.drop_first());
    }
}

/// No two of the dues pair a date with an instant.
pub open spec fn due_kinds_agree(a: Due, b: Due, c: Due) -> bool {
    !((a is Date || b is Date || c is Date) && (a is DateTime || b is DateTime || c is DateTime))
}

/// No sort key orders by due.
pub open spec fn no_due_key(sort: Seq<SortSpec>) -> bool {
    forall|i: int| 0 <= i < sort.len() ==> (#[trigger] sort[i]).field != SortField::Due
}

proof fn lemma_field_order_chained(a: TaskView, b: TaskView, c: TaskView, field: SortField, offset: UtcOffset)
    requires
        field == SortField::Due ==> due_kinds_agree(a.due, b.due, c.due),
    ensures
        chained(field_order(a, b, field, offset), field_order(b, c, field, offset), field_order(a, c, field, offset)),
{
    if field == SortField::Title {
        lemma_text_order_chained(lowercased(a.title), lowercased(b.title), lowercased(c.title));
    }
}

proof fn lemma_directed_chained(a: TaskView, b: TaskView, c: TaskView, spec: SortSpec, offset: UtcOffset)
    requires
        spec.field == SortField::Due ==> due_kinds_agree(a.due, b.due, c.due),
    ensures
        chained(
            directed(field_order(a, b, spec.field, offset), spec.direction),
            directed(field_order(b, c, spec.field, offset), spec.direction),
            directed(field_order(a, c, spec.field, offset), spec.direction),
        ),
{
    lemma_field_order_chained(a, b, c, spec.field, offset);
    lemma_field_order_chained(c, b, a, spec.field, offset);
    lemma_field_order_antisymmetric(a, b, spec.field, offset);
    lemma_field_order_antisymmetric(b, c, spec.field, offset);
    lemma_field_order_antisymmetric(a, c, spec.field, offset);
}

proof fn lemma_field_order_antisymmetric(l: TaskView, r: TaskView, field: SortField, offset: UtcOffset)
    ensures
        field_order(r, l, field, offset) == reversed(field_order(l, r, field, offset)),
{
    if field == SortField::Title {
        lemma_text_order_antisymmetric(lowercased(l.title), lowercased(r.title));
    }
}

/// The order of tasks under sort keys is a total preorder on any three tasks unless
/// a due key compares a dated task with a timed one: then a date ties with every
/// instant of its local day while those instants differ, and a cycle can form.
pub proof fn lemma_tasks_order_chained(
    a: TaskView,
    b: TaskView,
    c: TaskView,
    sort: Seq<SortSpec>,
    offset: UtcOffset,
)
    requires
        no_due_key(sort) || due_kinds_agree(a.due, b.due, c.due),
    ensures
        chained(tasks_order(a, b, sort, offset), tasks_order(b, c, sort, offset), tasks_order(a, c, sort, offset)),
    decreases sort.len(),
{
    if sort.len() == 0 {
        lemma_text_order_chained(hyphenated(a.id.value), hyphenated(b.id.value), hyphenated(c.id.value));
    } else {
        let rest = sort.drop_first();
        assert(no_due_key(sort) ==> no_due_key(rest)) by {
            if no_due_key(sort) {
                assert forall|i: int| 0 <= i < rest.len() implies (#[trigger] rest[i]).field != SortField::Due by {
                    assert(rest[i] == sort[i + 1]);
                }
            }
        }
        assert(no_due_key(sort) ==> sort[0].field != SortField::Due);
        lemma_directed_chained(a, b, c, sort[0], offset);
        lemma_directed_chained(c, b, a, sort[0], offset);
        lemma_tasks_order_chained(a, b, c, rest, offset);
    }
}

/// What each sort key compares, ascending: the manual rank, the priority (unset,
/// low, medium, high), the due day with undated tasks last, the time of the last
/// update, the time of creation, and the lowercased title. A key looks at its own
/// field only.
pub proof fn lemma_sort_keys(l: TaskView, r: TaskView, offset: UtcOffset)
    ensures
        l.sort_order < r.sort_order ==> field_order(l, r, SortField::Manual, offset) == Ordering::Less,
        l.sort_order > r.sort_order ==> field_order(l, r, SortField::Manual, offset) == Ordering::Greater,
        l.sort_order == r.sort_order ==> field_order(l, r, SortField::Manual, offset) == Ordering::Equal,
        l.updated_at.nanos < r.updated_at.nanos ==> field_order(l, r, SortField::UpdatedAt, offset) == Ordering::Less,
        l.updated_at.nanos > r.updated_at.nanos ==> field_order(l, r, SortField::UpdatedAt, offset) == Ordering::Greater,
        l.updated_at.nanos == r.updated_at.nanos ==> field_order(l, r, SortField::UpdatedAt, offset) == Ordering::Equal,
        l.created_at.nanos < r.created_at.nanos ==> field_order(l, r, SortField::CreatedAt, offset) == Ordering::Less,
        l.created_at.nanos > r.created_at.nanos ==> field_order(l, r, SortField::CreatedAt, offset) == Ordering::Greater,
        l.created_at.nanos == r.created_at.nanos ==> field_order(l, r, SortField::CreatedAt, offset) == Ordering::Equal,
        l.priority == r.priority ==> field_order(l, r, SortField::Priority, offset) == Ordering::Equal,
        l.priority == Priority::High && r.priority != Priority::High ==> field_order(l, r, SortField::Priority, offset)
            == Ordering::Greater,
        l.priority == Priority::Unset && r.priority != Priority::Unset ==> field_order(l, r, SortField::Priority, offset)
            == Ordering::Less,
        l.priority == Priority::Medium && r.priority == Priority::Low ==> field_order(l, r, SortField::Priority, offset)
            == Ordering::Greater,
        l.due is Unset && !(r.due is Unset) ==> field_order(l, r, SortField::Due, offset) == Ordering::Greater,
        l.due is Unset && r.due is Unset ==> field_order(l, r, SortField::Due, offset) == Ordering::Equal,
        (l.due matches Due::Date(a) && r.due matches Due::Date(b) && a.days() < b.days()) ==> field_order(
            l,
            r,
            SortField::Due,
            offset,
        ) == Ordering::Less,
        (l.due matches Due::DateTime(a) && r.due matches Due::DateTime(b) && a.nanos < b.nanos) ==> field_order(
            l,
            r,
            SortField::Due,
            offset,
        ) == Ordering::Less,
        lowercased(l.title) == lowercased(r.title) ==> field_order(l, r, SortField::Title, offset) == Ordering::Equal,
        (lowercased(l.title).len() > 0 && lowercased(r.title).len() > 0 && char_code(lowercased(l.title)[0])
            < char_code(lowercased(r.title)[0])) ==> field_order(l, r, SortField::Title, offset) == Ordering::Less,
{
    if lowercased(l.title) == lowercased(r.title) {
        lemma_text_order_reflexive(lowercased(l.title));
    }
}

/// A descending key reverses what the ascending key decides, and a key that tells
/// two tasks apart decides their order whatever the later keys say; when no key
/// does, the identifiers' texts decide.
pub proof fn lemma_sort_directions(l: TaskView, r: TaskView, sort: Seq<SortSpec>, offset: UtcOffset)
    requires
        sort.len() > 0,
    ensures
        field_order(l, r, sort[0].field, offset) != Ordering::Equal ==> tasks_order(l, r, sort, offset) == if sort[0].direction
            == SortDirection::Ascending {
            field_order(l, r, sort[0].field, offset)
        } else {
            reversed(field_order(l, r, sort[0].field, offset))
        },
        field_order(l, r, sort[0].field, offset) == Ordering::Equal ==> tasks_order(l, r, sort, offset) == tasks_order(
            l,
            r,
            sort.drop_first(),
            offset,
        ),
        tasks_order(l, r, Seq::empty(), offset) == text_order(hyphenated(l.id.value), hyphenated(r.id.value)),
{
    assert(reversed(Ordering::Equal) == Ordering::Equal);
}

/// A text that does not come before another comes after it or ties with it.
pub proof fn lemma_text_not_before(a: Seq<char>, b: Seq<char>)
    ensures
        !text_before(a, b) ==> text_before(b, a) || text_ties(b, a),
{
    lemma_text_order_antisymmetric(a, b);
}

/// A task that does not come before another does not come after it either way round.
pub proof fn lemma_task_not_before(l: TaskView, r: TaskView, sort: Seq<SortSpec>, offset: UtcOffset)
    ensures
        !task_before(l, r, sort, offset) ==> task_not_after(r, l, sort, offset),
{
    lemma_tasks_order_antisymmetric(l, r, sort, offset);
}

fn char_code_of(c: char) -> (r: u32)
    ensures
        r == char_code(c),
{
    c as u32
}

/// Lexicographic comparison of two texts by code point.
pub fn compare_text(a: &Vec<char>, b: &Vec<char>) -> (r: Ordering)
    ensures
        r == text_order(a@, b@),
{
    let mut i: usize = 0;
    proof {
        assert(a@.skip(0) =~= a@);
        assert(b@.skip(0) =~= b@);
    }
    while i < a.len() && i < b.len()
        invariant
            i <= a.len(),
            i <= b.len(),
            text_order(a@, b@) == text_order(a@.skip(index_of(i)), b@.skip(index_of(i))),
        decreases a.len() - i,
    {
        let x = char_code_of(a[i]);
        let y = char_code_of(b[i]);
        proof {
            assert(a@.skip(index_of(i))[0] == a@[index_of(i)]);
            assert(b@.skip(index_of(i))[0] == b@[index_of(i)]);
        }
        if x < y {
            return Ordering::Less;
        }
        if x > y {
            return Ordering::Greater;
        }
        proof {
            assert(a@.skip(index_of(i)).drop_first() == a@.skip(index_of(i) + 1));
            assert(b@.skip(index_of(i)).drop_first() == b@.skip(index_of(i) + 1));
        }
        i = i + 1;
    }
    if i < a.len() {
        Ordering::Greater
    } else if i < b.len() {
        Ordering::Less
    } else {
        Ordering::Equal
    }
}

fn compare_i64(a: i64, b: i64) -> (r: Ordering)
    ensures
        r == int_order(wide64(a), wide64(b)),
{
    if a < b {
        Ordering::Less
    } else if a > b {
        Ordering::Greater
    } else {
        Ordering::Equal
    }
}

fn compare_i128(a: i128, b: i128) -> (r: Ordering)
    ensures
        r == int_order(wide128(a), wide128(b)),
{
    if a < b {
        Ordering::Less
    } else if a > b {
        Ordering::Greater
    } else {
        Ordering::Equal
    }
}

fn compare_i32(a: i32, b: i32) -> (r: Ordering)
    ensures
        a < b ==> r == Ordering::Less,
        a > b ==> r == Ordering::Greater,
        a == b ==> r == Ordering::Equal,
{
    if a < b {
        Ordering::Less
    } else if a > b {
        Ordering::Greater
    } else {
        Ordering::Equal
    }
}

fn compare_u8(a: u8, b: u8) -> (r: Ordering)
    ensures
        a < b ==> r == Ordering::Less,
        a > b ==> r == Ordering::Greater,
        a == b ==> r == Ordering::Equal,
{
    if a < b {
        Ordering::Less
    } else if a > b {
        Ordering::Greater
    } else {
        Ordering::Equal
    }
}

/// The order of two due dates: undated last, dates and instants by local date.
pub fn compare_task_due(left: &Due, right: &Due, offset: &UtcOffset) -> (r: Ordering)
    requires
        left.wf(),
        right.wf(),
        offset.wf(),
    ensures
        r == due_order(*left, *right, *offset),
{
    match (left, right) {
        (Due::Unset, Due::Unset) => Ordering::Equal,
        (Due::Unset, _) => Ordering::Greater,
        (_, Due::Unset) => Ordering::Less,
        (Due::Date(x), Due::Date(y)) => compare_i32(x.day_number(), y.day_number()),
        (Due::DateTime(x), Due::DateTime(y)) => compare_i128(x.nanos, y.nanos),
        (Due::Date(x), Due::DateTime(y)) => compare_i32(
            x.day_number(),
            date_at(y, offset).day_number(),
        ),
        (Due::DateTime(x), Due::Date(y)) => compare_i32(
            date_at(x, offset).day_number(),
            y.day_number(),
        ),
    }
}

/// The order of two tasks by one field, ascending.
pub fn compare_task_field(left: &Task, right: &Task, field: SortField, offset: &UtcOffset) -> (r:
    Ordering)
    requires
        left.wf(),
        right.wf(),
        offset.wf(),
    ensures
        r == field_order(left@, right@, field, *offset),
{
    match field {
        SortField::Manual => compare_i64(left.sort_order, right.sort_order),
        SortField::Priority => compare_u8(left.priority.rank(), right.priority.rank()),
        SortField::Due => compare_task_due(&left.due, &right.due, offset),
        SortField::UpdatedAt => compare_i128(left.updated_at.nanos, right.updated_at.nanos),
        SortField::CreatedAt => compare_i128(left.created_at.nanos, right.created_at.nanos),
        SortField::Title => {
            let a = lowercase_chars(left.title.as_str());
            let b = lowercase_chars(right.title.as_str());
            compare_text(&a, &b)
        },
    }
}

fn reverse_ordering(o: Ordering) -> (r: Ordering)
    ensures
        r == reversed(o),
{
    match o {
        Ordering::Less => Ordering::Greater,
        Ordering::Equal => Ordering::Equal,
        Ordering::Greater => Ordering::Less,
    }
}

fn compare_ids(a: &TaskId, b: &TaskId) -> (r: Ordering)
    ensures
        r == id_order(*a, *b),
{
    let x = a.text();
    let y = b.text();
    let xs = chars_of(x.as_str());
    let ys = chars_of(y.as_str());
    compare_text(&xs, &ys)
}

/// The order of two tasks under the sort keys `sort`; when no key tells them apart,
/// the texts of their identifiers decide.
pub fn compare_tasks(left: &Task, right: &Task, sort: &[SortSpec], offset: &UtcOffset) -> (r:
    Ordering)
    requires
        left.wf(),
        right.wf(),
        offset.wf(),
    ensures
        r == tasks_order(left@, right@, sort@, *offset),
{
    let mut i: usize = 0;
    proof {
        assert(sort@.skip(0) =~= sort@);
    }
    while i < sort.len()
        invariant
            i <= sort@.len(),
            left.wf(),
            right.wf(),
            offset.wf(),
            tasks_order(left@, right@, sort@, *offset) == tasks_order(
                left@,
                right@,
                sort@.skip(index_of(i)),
                *offset,
            ),
        decreases sort@.len() - i,
    {
        let spec_item = sort[i];
        let o = compare_task_field(left, right, spec_item.field, offset);
        let o = match spec_item.direction {
            SortDirection::Ascending => o,
            SortDirection::Descending => reverse_ordering(o),
        };
        proof {
            assert(sort@.skip(index_of(i))[0] == sort@[index_of(i)]);
        }
        match o {
            Ordering::Equal => {},
            _ => {
                return o;
            },
        }
        proof {
            assert(sort@.skip(index_of(i)).drop_first() == sort@.skip(index_of(i) + 1));
        }
        i = i + 1;
    }
    proof {
        assert(sort@.skip(index_of(i)).len() == 0);
    }
    compare_ids(&left.id, &right.id)
}

} // verus!
