//! What the board, the calendar, the sidebar counters and the command palette show
//! of the visible tasks.
use vstd::prelude::*;
use vstd::string::StringExecFns;

use crate::calendar::{CivilDate, Timestamp, UtcOffset, calendar_leading_days, days_in_month, days_in_month_of};
use crate::due::{clock_text, due_time_options, due_day, due_is_overdue, due_is_today, due_overdue, due_today, due_date_at, due_input_value, format_due_input_at};
use crate::ordering::text_before;
use crate::sorting::{is_index_permutation, labels_ordered, stable_label_order, text_precedes, views};
use crate::task::{Due, Priority, Task, TaskStatus, TaskView};
use crate::text::{chars_of, contains_chars, contains_text, lowercase_chars, lowercased, trim_chars, trimmed};
use crate::views::SmartView;

use crate::seqs::lemma_filter_push;

verus! {

/// The tasks of the board column for `status`, in list order.
pub fn board_column(tasks: &Vec<Task>, status: TaskStatus) -> (r: Vec<Task>)
    ensures
        views(r@) == views(tasks@).filter(|t: TaskView| t.status == status),
{
    let ghost src = views(tasks@);
    let ghost pred = |t: TaskView| t.status == status;
    let mut out: Vec<Task> = Vec::new();
    let mut i: usize = 0;
    while i < tasks.len()
        invariant
            i <= tasks.len(),
            src == views(tasks@),
            pred == (|t: TaskView| t.status == status),
            views(out@) == src.subrange(0, i as int).filter(pred),
        decreases tasks.len() - i,
    {
        let ghost v = tasks@[i as int]@;
        proof {
            assert(src[i as int] == v);
            assert(src.subrange(0, i + 1) == src.subrange(0, i as int).push(v));
            lemma_filter_push(src.subrange(0, i as int), pred, v);
        }
        if tasks[i].status == status {
            let ghost before = out@;
            out.push(tasks[i].copy());
            proof {
                assert(views(out@) =~= views(before).push(v));
            }
        }
        i = i + 1;
    }
    proof {
        assert(src.subrange(0, src.len() as int) == src);
    }
    out
}

/// The columns a card can move to with its arrow buttons: the column to the left and
/// the one to the right of its status (a status without a column counts as the first
/// column).
pub fn board_neighbours(status: TaskStatus) -> (r: (Option<TaskStatus>, Option<TaskStatus>))
    ensures
        status == TaskStatus::Doing ==> r == (Some(TaskStatus::Todo), Some(TaskStatus::Blocked)),
        status == TaskStatus::Blocked ==> r == (Some(TaskStatus::Doing), Some(TaskStatus::Done)),
        status == TaskStatus::Done ==> r == (Some(TaskStatus::Blocked), None::<TaskStatus>),
        status == TaskStatus::Todo || status == TaskStatus::Inbox || status == TaskStatus::Archived ==> r == (
            None::<TaskStatus>,
            Some(TaskStatus::Doing),
        ),
{
    match status {
        TaskStatus::Doing => (Some(TaskStatus::Todo), Some(TaskStatus::Blocked)),
        TaskStatus::Blocked => (Some(TaskStatus::Doing), Some(TaskStatus::Done)),
        TaskStatus::Done => (Some(TaskStatus::Blocked), None),
        _ => (None, Some(TaskStatus::Doing)),
    }
}

/// A task counted in the sidebar: neither in the trash, done nor archived.
pub open spec fn open_task(t: TaskView) -> bool {
    t.deleted_at is None && t.status != TaskStatus::Done && t.status != TaskStatus::Archived
}

/// The sidebar's counters: open tasks due today and open tasks past their due date.
pub fn sidebar_counts(tasks: &Vec<Task>, now: &Timestamp, today: &CivilDate, offset: &UtcOffset) -> (r: (usize, usize))
    requires
        forall|i: int| 0 <= i < tasks.len() ==> (#[trigger] tasks@[i]).wf(),
        today.wf(),
        offset.wf(),
    ensures
        r.0 == views(tasks@).filter(|t: TaskView| open_task(t) && due_today(t.due, *today, *offset)).len(),
        r.1 == views(tasks@).filter(|t: TaskView| open_task(t) && due_overdue(t.due, *now, *today)).len(),
{
    let ghost src = views(tasks@);
    let ghost p1 = |t: TaskView| open_task(t) && due_today(t.due, *today, *offset);
    let ghost p2 = |t: TaskView| open_task(t) && due_overdue(t.due, *now, *today);
    let mut a: usize = 0;
    let mut b: usize = 0;
    let mut i: usize = 0;
    while i < tasks.len()
        invariant
            i <= tasks.len(),
            src == views(tasks@),
            today.wf(),
            offset.wf(),
            forall|j: int| 0 <= j < tasks.len() ==> (#[trigger] tasks@[j]).wf(),
            p1 == (|t: TaskView| open_task(t) && due_today(t.due, *today, *offset)),
            p2 == (|t: TaskView| open_task(t) && due_overdue(t.due, *now, *today)),
            a == src.subrange(0, i as int).filter(p1).len(),
            b == src.subrange(0, i as int).filter(p2).len(),
            a <= i,
            b <= i,
        decreases tasks.len() - i,
    {
        let t = &tasks[i];
        let ghost v = t@;
        proof {
            assert(src[i as int] == v);
            assert(src.subrange(0, i + 1) == src.subrange(0, i as int).push(v));
            lemma_filter_push(src.subrange(0, i as int), p1, v);
            lemma_filter_push(src.subrange(0, i as int), p2, v);
        }
        let open = t.deleted_at.is_none() && t.status != TaskStatus::Done && t.status != TaskStatus::Archived;
        if open && due_is_today(&t.due, today, offset) {
            a = a + 1;
        }
        if open && due_is_overdue(&t.due, now, today) {
            b = b + 1;
        }
        i = i + 1;
    }
    proof {
        assert(src.subrange(0, src.len() as int) == src);
    }
    (a, b)
}

/// One day of the month grid: its day of the month, whether it is today, the first
/// three tasks due that day and how many are due.
#[derive(Clone, Debug)]
pub struct MonthDay {
    pub day: u8,
    pub is_today: bool,
    pub tasks: Vec<Task>,
    pub total: usize,
}

/// The task is due on the day numbered `day` at `offset`.
pub open spec fn due_on(t: TaskView, day: int, offset: UtcOffset) -> bool {
    due_day(t.due, offset) == Some(day)
}

/// The tasks due on the day numbered `day`, in list order.
pub open spec fn tasks_due_on(tasks: Seq<TaskView>, day: int, offset: UtcOffset) -> Seq<TaskView> {
    tasks.filter(|t: TaskView| due_on(t, day, offset))
}

/// `cell` is grid cell `k` of the month that starts on `first`: blank before the
/// first day and after the last, else the day `k - leading + 1` with the tasks due
/// on it.
pub open spec fn month_cell(
    cell: Option<MonthDay>,
    k: int,
    first: CivilDate,
    tasks: Seq<TaskView>,
    today: CivilDate,
    offset: UtcOffset,
) -> bool {
    let leading = (first.days() + 4) % 7;
    let length = days_in_month(first.year as int, first.month as int);
    if k < leading || k >= leading + length {
        cell is None
    } else {
        let day = k - leading + 1;
        let date = CivilDate { year: first.year, month: first.month, day: day as u8 };
        let due = tasks_due_on(tasks, date.days(), offset);
        &&& cell matches Some(c)
        &&& c.day == day
        &&& c.is_today == (date == today)
        &&& views(c.tasks@) == if due.len() <= 3 {
            due
        } else {
            due.take(3)
        }
        &&& c.total == due.len()
    }
}

fn day_cell(tasks: &Vec<Task>, date: &CivilDate, today: &CivilDate, offset: &UtcOffset) -> (r: MonthDay)
    requires
        date.wf(),
        offset.wf(),
        forall|i: int| 0 <= i < tasks.len() ==> (#[trigger] tasks@[i]).wf(),
    ensures
        r.day == date.day,
        r.is_today == (*date == *today),
        ({
            let due = tasks_due_on(views(tasks@), date.days(), *offset);
            &&& views(r.tasks@) == if due.len() <= 3 {
                due
            } else {
                due.take(3)
            }
            &&& r.total == due.len()
        }),
{
    let ghost src = views(tasks@);
    let ghost pred = |t: TaskView| due_on(t, date.days(), *offset);
    let target = date.day_number();
    let mut shown: Vec<Task> = Vec::new();
    let mut total: usize = 0;
    let mut i: usize = 0;
    while i < tasks.len()
        invariant
            i <= tasks.len(),
            src == views(tasks@),
            offset.wf(),
            date.wf(),
            target == date.days() + crate::calendar::UNIX_EPOCH_JULIAN_DAY,
            forall|j: int| 0 <= j < tasks.len() ==> (#[trigger] tasks@[j]).wf(),
            pred == (|t: TaskView| due_on(t, date.days(), *offset)),
            total == src.subrange(0, i as int).filter(pred).len(),
            total <= i,
            views(shown@) == if total <= 3 {
                src.subrange(0, i as int).filter(pred)
            } else {
                src.subrange(0, i as int).filter(pred).take(3)
            },
        decreases tasks.len() - i,
    {
        let ghost v = tasks@[i as int]@;
        let ghost before_f = src.subrange(0, i as int).filter(pred);
        proof {
            assert(src[i as int] == v);
            assert(src.subrange(0, i + 1) == src.subrange(0, i as int).push(v));
            lemma_filter_push(src.subrange(0, i as int), pred, v);
        }
        let hit = match due_date_at(&tasks[i].due, offset) {
            Some(d) => d.day_number() == target,
            None => false,
        };
        if hit {
            if total < 3 {
                let ghost before = shown@;
                shown.push(tasks[i].copy());
                proof {
                    assert(views(shown@) =~= views(before).push(v));
                }
            }
            proof {
                if total >= 3 {
                    assert(before_f.push(v).take(3) =~= before_f.take(3));
                } else if total == 3 {
                    assert(before_f.push(v).take(3) =~= before_f);
                }
            }
            total = total + 1;
        }
        i = i + 1;
    }
    proof {
        assert(src.subrange(0, src.len() as int) == src);
    }
    MonthDay { day: date.day, is_today: *date == *today, tasks: shown, total }
}

/// The 42 cells (six weeks from Sunday) of the month that starts on `first`.
pub fn month_grid(first: &CivilDate, tasks: &Vec<Task>, today: &CivilDate, offset: &UtcOffset) -> (r: Vec<Option<MonthDay>>)
    requires
        first.wf(),
        first.day == 1,
        offset.wf(),
        forall|i: int| 0 <= i < tasks.len() ==> (#[trigger] tasks@[i]).wf(),
    ensures
        r.len() == 42,
        forall|k: int| 0 <= k < 42 ==> month_cell(#[trigger] r@[k], k, *first, views(tasks@), *today, *offset),
{
    let leading = calendar_leading_days(first);
    let length = days_in_month_of(first) as usize;
    let mut cells: Vec<Option<MonthDay>> = Vec::new();
    let mut k: usize = 0;
    while k < 42
        invariant
            k <= 42,
            cells.len() == k,
            leading == (first.days() + 4) % 7,
            length == days_in_month(first.year as int, first.month as int),
            first.wf(),
            first.day == 1,
            offset.wf(),
            forall|i: int| 0 <= i < tasks.len() ==> (#[trigger] tasks@[i]).wf(),
            forall|j: int| 0 <= j < k ==> month_cell(#[trigger] cells@[j], j, *first, views(tasks@), *today, *offset),
        decreases 42 - k,
    {
        if k < leading || k >= leading + length {
            cells.push(None);
        } else {
            let day = (k - leading + 1) as u8;
            let date = CivilDate { year: first.year, month: first.month, day };
            let cell = day_cell(tasks, &date, today, offset);
            cells.push(Some(cell));
        }
        k = k + 1;
    }
    cells
}

/// The calendar's agenda: the positions of the tasks with a
/// due date, stably sorted by their due-input text, and the positions of the tasks
/// without one, in list order.
pub fn agenda(tasks: &Vec<Task>, offset: &UtcOffset) -> (r: (Vec<usize>, Vec<usize>))
    requires
        forall|i: int| 0 <= i < tasks.len() ==> (#[trigger] tasks@[i]).wf(),
        offset.wf(),
    ensures
        ({
            let dated = Seq::new(tasks@.len(), |i: int| i).filter(|i: int| !(tasks@[i].due is Unset));
            let labels = dated.map_values(|i: int| due_input_value(tasks@[i].due, *offset));
            exists|p: Seq<usize>|
                #![trigger labels_ordered(labels, p)]
                is_index_permutation(p, dated.len() as int) && labels_ordered(labels, p) && r.0@.len() == p.len()
                    && forall|k: int| 0 <= k < p.len() ==> #[trigger] r.0@[k] == dated[p[k] as int]
        }),
        r.1@.len() <= tasks.len(),
        forall|k: int| 0 <= k < r.1@.len() ==> r.1@[k] < tasks.len() && tasks@[r.1@[k] as int].due is Unset,
        forall|a: int, b: int| 0 <= a < b < r.1@.len() ==> r.1@[a] < r.1@[b],
        forall|i: int| 0 <= i < tasks.len() && tasks@[i].due is Unset ==> r.1@.contains(i as usize),
{
    let ghost all = Seq::new(tasks@.len(), |i: int| i);
    let ghost dp = |i: int| !(tasks@[i].due is Unset);
    let mut dated: Vec<usize> = Vec::new();
    let mut labels: Vec<Vec<char>> = Vec::new();
    let mut undated: Vec<usize> = Vec::new();
    let mut i: usize = 0;
    while i < tasks.len()
        invariant
            i <= tasks.len(),
            offset.wf(),
            all == Seq::new(tasks@.len(), |i: int| i),
            dp == (|i: int| !(tasks@[i].due is Unset)),
            forall|j: int| 0 <= j < tasks.len() ==> (#[trigger] tasks@[j]).wf(),
            dated@.map_values(|x: usize| x as int) == all.subrange(0, i as int).filter(dp),
            labels.len() == dated.len(),
            forall|k: int| 0 <= k < labels.len() ==> #[trigger] labels@[k]@ == due_input_value(tasks@[dated@[k] as int].due, *offset),
            undated.len() <= i,
            forall|k: int| 0 <= k < undated.len() ==> undated@[k] < i && tasks@[undated@[k] as int].due is Unset,
            forall|a: int, b: int| 0 <= a < b < undated.len() ==> undated@[a] < undated@[b],
            forall|j: int| 0 <= j < i && tasks@[j].due is Unset ==> undated@.contains(j as usize),
        decreases tasks.len() - i,
    {
        proof {
            reveal(Seq::filter);
            let s = all.subrange(0, i + 1);
            assert(s.drop_last() == all.subrange(0, i as int));
            assert(s.last() == i as int);
        }
        if tasks[i].due == Due::Unset {
            let ghost before = undated@;
            undated.push(i);
            proof {
                assert(undated@[undated.len() - 1] == i);
                assert forall|j: int| 0 <= j < i + 1 && tasks@[j].due is Unset implies undated@.contains(j as usize) by {
                    if j < i {
                        let q = choose|q: int| 0 <= q < before.len() && before[q] == j as usize;
                        assert(undated@[q] == j as usize);
                    }
                }
            }
        } else {
            let ghost before = dated@;
            dated.push(i);
            let text = format_due_input_at(&tasks[i].due, offset);
            labels.push(chars_of(text.as_str()));
            proof {
                assert(dated@.map_values(|x: usize| x as int) =~= before.map_values(|x: usize| x as int).push(i as int));
            }
        }
        i = i + 1;
    }
    let order = stable_label_order(&labels);
    let mut sorted: Vec<usize> = Vec::new();
    let mut k: usize = 0;
    proof {
        assert(all.subrange(0, tasks.len() as int) == all);
    }
    let ghost dated_seq = all.filter(dp);
    let ghost lv = labels@.map_values(|l: Vec<char>| l@);
    proof {
        assert forall|q: int| 0 <= q < dated.len() implies dated_seq[q] == dated@[q] as int by {
            assert(dated@.map_values(|x: usize| x as int)[q] == dated@[q] as int);
        }
        assert(lv =~= dated_seq.map_values(|i: int| due_input_value(tasks@[i].due, *offset))) by {
            assert forall|q: int| 0 <= q < lv.len() implies lv[q] == dated_seq.map_values(
                |i: int| due_input_value(tasks@[i].due, *offset),
            )[q] by {
                assert(lv[q] == labels@[q]@);
                assert(dated_seq[q] == dated@[q] as int);
            }
        }
    }
    while k < order.len()
        invariant
            k <= order.len() == dated.len() == labels.len(),
            is_index_permutation(order@, labels.len() as int),
            sorted.len() == k,
            dated_seq.len() == dated.len(),
            forall|q: int| 0 <= q < dated.len() ==> dated_seq[q] == dated@[q] as int,
            forall|j: int| 0 <= j < k ==> #[trigger] sorted@[j] as int == dated_seq[order@[j] as int],
        decreases order.len() - k,
    {
        sorted.push(dated[order[k]]);
        k = k + 1;
    }
    proof {
        let labels_spec = dated_seq.map_values(|i: int| due_input_value(tasks@[i].due, *offset));
        assert(labels_ordered(labels_spec, order@));
        assert forall|j: int| 0 <= j < order@.len() implies #[trigger] sorted@[j] == dated_seq[order@[j] as int] by {}
    }
    (sorted, undated)
}

/// The commands of the palette.
#[derive(Clone, Copy, Debug, PartialEq, Eq, Structural)]
pub enum PaletteCommand {
    NewTask,
    Search,
    Today,
    All,
    StatusTodo,
    StatusDoing,
    StatusBlocked,
    StatusDone,
    StatusArchived,
    PriorityNone,
    PriorityLow,
    PriorityMedium,
    PriorityHigh,
    Backup,
}

/// What running a command does.
#[derive(Clone, Copy, Debug, PartialEq, Eq, Structural)]
pub enum PaletteAction {
    OpenNewTaskForm,
    FocusSearch,
    ShowView(SmartView),
    SetSelectedStatus(TaskStatus),
    SetSelectedPriority(Priority),
    CreateBackup,
}

/// The label and the search keywords of a command.
pub open spec fn command_text(c: PaletteCommand) -> (Seq<char>, Seq<char>) {
    match c {
        PaletteCommand::NewTask => ("新しいタスク"@, "新規 追加 task"@),
        PaletteCommand::Search => ("タスクを検索"@, "検索 find search"@),
        PaletteCommand::Today => ("今日へ移動"@, "今日 today view"@),
        PaletteCommand::All => ("すべてへ移動"@, "全部 all view"@),
        PaletteCommand::StatusTodo => ("選択タスクを未着手へ"@, "状態 todo 未着手"@),
        PaletteCommand::StatusDoing => ("選択タスクを進行中へ"@, "状態 doing 進行"@),
        PaletteCommand::StatusBlocked => ("選択タスクを保留へ"@, "状態 blocked 保留"@),
        PaletteCommand::StatusDone => ("選択タスクを完了へ"@, "状態 done 完了"@),
        PaletteCommand::StatusArchived => ("選択タスクをアーカイブへ"@, "状態 archived アーカイブ"@),
        PaletteCommand::PriorityNone => ("選択タスクの優先度をなしへ"@, "優先度 none なし"@),
        PaletteCommand::PriorityLow => ("選択タスクを低優先度へ"@, "優先度 low 低"@),
        PaletteCommand::PriorityMedium => ("選択タスクを中優先度へ"@, "優先度 medium 中"@),
        PaletteCommand::PriorityHigh => ("選択タスクを高優先度へ"@, "優先度 high 高"@),
        PaletteCommand::Backup => ("手動バックアップを作成"@, "backup 保存 バックアップ"@),
    }
}

/// The commands in the order the palette lists them.
pub open spec fn all_commands() -> Seq<PaletteCommand> {
    seq![
        PaletteCommand::NewTask,
        PaletteCommand::Search,
        PaletteCommand::Today,
        PaletteCommand::All,
        PaletteCommand::StatusTodo,
        PaletteCommand::StatusDoing,
        PaletteCommand::StatusBlocked,
        PaletteCommand::StatusDone,
        PaletteCommand::StatusArchived,
        PaletteCommand::PriorityNone,
        PaletteCommand::PriorityLow,
        PaletteCommand::PriorityMedium,
        PaletteCommand::PriorityHigh,
        PaletteCommand::Backup,
    ]
}

/// The label of `command`.
pub fn command_label(command: PaletteCommand) -> (r: String)
    ensures
        r@ == command_text(command).0,
{
    match command {
        PaletteCommand::NewTask => String::from_str("新しいタスク"),
        PaletteCommand::Search => String::from_str("タスクを検索"),
        PaletteCommand::Today => String::from_str("今日へ移動"),
        PaletteCommand::All => String::from_str("すべてへ移動"),
        PaletteCommand::StatusTodo => String::from_str("選択タスクを未着手へ"),
        PaletteCommand::StatusDoing => String::from_str("選択タスクを進行中へ"),
        PaletteCommand::StatusBlocked => String::from_str("選択タスクを保留へ"),
        PaletteCommand::StatusDone => String::from_str("選択タスクを完了へ"),
        PaletteCommand::StatusArchived => String::from_str("選択タスクをアーカイブへ"),
        PaletteCommand::PriorityNone => String::from_str("選択タスクの優先度をなしへ"),
        PaletteCommand::PriorityLow => String::from_str("選択タスクを低優先度へ"),
        PaletteCommand::PriorityMedium => String::from_str("選択タスクを中優先度へ"),
        PaletteCommand::PriorityHigh => String::from_str("選択タスクを高優先度へ"),
        PaletteCommand::Backup => String::from_str("手動バックアップを作成"),
    }
}

fn command_keywords(command: PaletteCommand) -> (r: &'static str)
    ensures
        r@ == command_text(command).1,
{
    match command {
        PaletteCommand::NewTask => "新規 追加 task",
        PaletteCommand::Search => "検索 find search",
        PaletteCommand::Today => "今日 today view",
        PaletteCommand::All => "全部 all view",
        PaletteCommand::StatusTodo => "状態 todo 未着手",
        PaletteCommand::StatusDoing => "状態 doing 進行",
        PaletteCommand::StatusBlocked => "状態 blocked 保留",
        PaletteCommand::StatusDone => "状態 done 完了",
        PaletteCommand::StatusArchived => "状態 archived アーカイブ",
        PaletteCommand::PriorityNone => "優先度 none なし",
        PaletteCommand::PriorityLow => "優先度 low 低",
        PaletteCommand::PriorityMedium => "優先度 medium 中",
        PaletteCommand::PriorityHigh => "優先度 high 高",
        PaletteCommand::Backup => "backup 保存 バックアップ",
    }
}

/// A command is listed for the typed `input`: the input is empty, or the lowercased
/// `label keywords` contains the lowercased input with white space trimmed.
pub open spec fn command_listed(c: PaletteCommand, input: Seq<char>) -> bool {
    let q = lowercased(input);
    q.len() == 0 || contains_text(lowercased(command_text(c).0 + " "@ + command_text(c).1), trimmed(q))
}

fn command_at(i: usize) -> (r: PaletteCommand)
    requires
        i < 14,
    ensures
        r == all_commands()[i as int],
{
    match i {
        0 => PaletteCommand::NewTask,
        1 => PaletteCommand::Search,
        2 => PaletteCommand::Today,
        3 => PaletteCommand::All,
        4 => PaletteCommand::StatusTodo,
        5 => PaletteCommand::StatusDoing,
        6 => PaletteCommand::StatusBlocked,
        7 => PaletteCommand::StatusDone,
        8 => PaletteCommand::StatusArchived,
        9 => PaletteCommand::PriorityNone,
        10 => PaletteCommand::PriorityLow,
        11 => PaletteCommand::PriorityMedium,
        12 => PaletteCommand::PriorityHigh,
        _ => PaletteCommand::Backup,
    }
}

/// The commands the palette lists for the typed `input`, in their order.
pub fn listed_commands(input: &str) -> (r: Vec<PaletteCommand>)
    ensures
        r@ == all_commands().filter(|c: PaletteCommand| command_listed(c, input@)),
{
    let q = lowercase_chars(input);
    let tq = trim_chars(&q);
    let ghost pred = |c: PaletteCommand| command_listed(c, input@);
    let ghost cs = all_commands();
    let mut out: Vec<PaletteCommand> = Vec::new();
    let mut i: usize = 0;
    while i < 14
        invariant
            i <= 14,
            cs == all_commands(),
            q@ == lowercased(input@),
            tq@ == trimmed(q@),
            pred == (|c: PaletteCommand| command_listed(c, input@)),
            out@ == cs.subrange(0, i as int).filter(pred),
        decreases 14 - i,
    {
        let c = command_at(i);
        proof {
            reveal(Seq::filter);
            assert(cs.subrange(0, i + 1).drop_last() == cs.subrange(0, i as int));
            assert(cs.subrange(0, i + 1).last() == c);
        }
        let listed = if q.len() == 0 {
            true
        } else {
            let mut hay = command_label(c);
            crate::text::append_str(&mut hay, " ");
            crate::text::append_str(&mut hay, command_keywords(c));
            let h = lowercase_chars(hay.as_str());
            contains_chars(&h, &tq)
        };
        if listed {
            out.push(c);
        }
        i = i + 1;
    }
    proof {
        assert(cs.subrange(0, 14) == cs);
    }
    out
}

/// What running `command` does; the palette closes
/// afterwards.
pub fn palette_action(command: PaletteCommand) -> (r: PaletteAction)
    ensures
        command == PaletteCommand::NewTask ==> r == PaletteAction::OpenNewTaskForm,
        command == PaletteCommand::Search ==> r == PaletteAction::FocusSearch,
        command == PaletteCommand::Today ==> r == PaletteAction::ShowView(SmartView::Today),
        command == PaletteCommand::All ==> r == PaletteAction::ShowView(SmartView::All),
        command == PaletteCommand::StatusTodo ==> r == PaletteAction::SetSelectedStatus(TaskStatus::Todo),
        command == PaletteCommand::StatusDoing ==> r == PaletteAction::SetSelectedStatus(TaskStatus::Doing),
        command == PaletteCommand::StatusBlocked ==> r == PaletteAction::SetSelectedStatus(TaskStatus::Blocked),
        command == PaletteCommand::StatusDone ==> r == PaletteAction::SetSelectedStatus(TaskStatus::Done),
        command == PaletteCommand::StatusArchived ==> r == PaletteAction::SetSelectedStatus(TaskStatus::Archived),
        command == PaletteCommand::PriorityNone ==> r == PaletteAction::SetSelectedPriority(Priority::Unset),
        command == PaletteCommand::PriorityLow ==> r == PaletteAction::SetSelectedPriority(Priority::Low),
        command == PaletteCommand::PriorityMedium ==> r == PaletteAction::SetSelectedPriority(Priority::Medium),
        command == PaletteCommand::PriorityHigh ==> r == PaletteAction::SetSelectedPriority(Priority::High),
        command == PaletteCommand::Backup ==> r == PaletteAction::CreateBackup,
{
    match command {
        PaletteCommand::NewTask => PaletteAction::OpenNewTaskForm,
        PaletteCommand::Search => PaletteAction::FocusSearch,
        PaletteCommand::Today => PaletteAction::ShowView(SmartView::Today),
        PaletteCommand::All => PaletteAction::ShowView(SmartView::All),
        PaletteCommand::StatusTodo => PaletteAction::SetSelectedStatus(TaskStatus::Todo),
        PaletteCommand::StatusDoing => PaletteAction::SetSelectedStatus(TaskStatus::Doing),
        PaletteCommand::StatusBlocked => PaletteAction::SetSelectedStatus(TaskStatus::Blocked),
        PaletteCommand::StatusDone => PaletteAction::SetSelectedStatus(TaskStatus::Done),
        PaletteCommand::StatusArchived => PaletteAction::SetSelectedStatus(TaskStatus::Archived),
        PaletteCommand::PriorityNone => PaletteAction::SetSelectedPriority(Priority::Unset),
        PaletteCommand::PriorityLow => PaletteAction::SetSelectedPriority(Priority::Low),
        PaletteCommand::PriorityMedium => PaletteAction::SetSelectedPriority(Priority::Medium),
        PaletteCommand::PriorityHigh => PaletteAction::SetSelectedPriority(Priority::High),
        PaletteCommand::Backup => PaletteAction::CreateBackup,
    }
}

/// How a due date is highlighted in the list, and which theme colour a priority uses.
#[derive(Clone, Copy, Debug, PartialEq, Eq, Structural)]
pub enum Tone {
    Muted,
    Success,
    Warning,
    Danger,
}

/// The colour of a priority's marker: none muted, low success,
/// medium warning, high danger.
pub fn priority_tone(priority: Priority) -> (r: Tone)
    ensures
        priority == Priority::Unset ==> r == Tone::Muted,
        priority == Priority::Low ==> r == Tone::Success,
        priority == Priority::Medium ==> r == Tone::Warning,
        priority == Priority::High ==> r == Tone::Danger,
{
    match priority {
        Priority::Unset => Tone::Muted,
        Priority::Low => Tone::Success,
        Priority::Medium => Tone::Warning,
        Priority::High => Tone::Danger,
    }
}

/// The colour of a row's due date: danger when an unfinished
/// task is past due, warning when it is due today or tomorrow, muted otherwise.
pub open spec fn due_tone_of(t: TaskView, now: Timestamp, today: CivilDate, offset: UtcOffset) -> Tone {
    if t.status != TaskStatus::Done && due_overdue(t.due, now, today) {
        Tone::Danger
    } else if due_day(t.due, offset) == Some(today.days()) || due_day(t.due, offset) == Some(today.days() + 1) {
        Tone::Warning
    } else {
        Tone::Muted
    }
}

/// The colour of the due date of `task` in the list.
pub fn due_tone(task: &Task, now: &Timestamp, today: &CivilDate, offset: &UtcOffset) -> (r: Tone)
    requires
        task.wf(),
        today.wf(),
        offset.wf(),
    ensures
        r == due_tone_of(task@, *now, *today, *offset),
{
    if task.status != TaskStatus::Done && due_is_overdue(&task.due, now, today) {
        return Tone::Danger;
    }
    let base = today.day_number();
    match due_date_at(&task.due, offset) {
        Some(d) => {
            let n = d.day_number();
            if n == base || (n as i64) == (base as i64) + 1 {
                Tone::Warning
            } else {
                Tone::Muted
            }
        },
        None => Tone::Muted,
    }
}

/// The quarter-hour choices of the time menu, in order.
pub open spec fn quarter_hours() -> Seq<Seq<char>> {
    Seq::new(96, |i: int| clock_text(i / 4, (i % 4) * 15))
}

/// `r` is the quarter hours with `t` placed at position `k`: every earlier choice
/// comes before `t`, the choice at `k` does not; `t` is inserted there unless it is
/// that choice already.
pub open spec fn time_placed(t: Seq<char>, r: Seq<Seq<char>>, k: int) -> bool {
    &&& 0 <= k <= 96
    &&& forall|j: int| 0 <= j < k ==> text_before(#[trigger] quarter_hours()[j], t)
    &&& k < 96 ==> !text_before(quarter_hours()[k], t)
    &&& k < 96 && quarter_hours()[k] == t ==> r == quarter_hours()
    &&& !(k < 96 && quarter_hours()[k] == t) ==> r == quarter_hours().insert(k, t)
}

/// The texts of a list of strings.
pub open spec fn texts(v: Seq<String>) -> Seq<Seq<char>> {
    v.map_values(|s: String| s@)
}

/// The choices of the due-time menu for the selected time `selected`:
/// the quarter hours, with the selected time inserted in order
/// when it is not one of them.
pub fn time_choices(selected: Option<&str>) -> (r: Vec<String>)
    ensures
        selected is None ==> texts(r@) == quarter_hours(),
        selected matches Some(t) ==> exists|k: int| #[trigger] time_placed(t@, texts(r@), k),
{
    let mut options = due_time_options();
    proof {
        assert(texts(options@) =~= quarter_hours());
    }
    match selected {
        None => {
            options
        },
        Some(t) => {
            let tc = chars_of(t);
            let mut k: usize = 0;
            let mut stop = false;
            while k < options.len() && !stop
                invariant
                    k <= options.len() == 96,
                    texts(options@) == quarter_hours(),
                    tc@ == t@,
                    forall|j: int| 0 <= j < k ==> text_before(#[trigger] quarter_hours()[j], t@),
                    stop ==> k < 96 && !text_before(quarter_hours()[k as int], t@),
                decreases options.len() - k + if stop { 0int } else { 1int },
            {
                let oc = chars_of(options[k].as_str());
                proof {
                    assert(oc@ == quarter_hours()[k as int]);
                }
                if text_precedes(&oc, &tc) {
                    k = k + 1;
                } else {
                    stop = true;
                }
            }
            let found = if k < options.len() {
                let oc = chars_of(options[k].as_str());
                proof {
                    assert(oc@ == quarter_hours()[k as int]);
                }
                crate::text::same_text(options[k].as_str(), t)
            } else {
                false
            };
            if !found {
                let ghost before = options@;
                options.insert(k, String::from_str(t));
                proof {
                    assert(texts(options@) =~= quarter_hours().insert(k as int, t@));
                }
            }
            proof {
                let ins = quarter_hours().insert(k as int, t@);
                if found {
                    assert(options@[k as int]@ == quarter_hours()[k as int]);
                    assert(quarter_hours()[k as int] == t@);
                }
                assert(time_placed(t@, texts(options@), k as int));
            }
            options
        },
    }
}

} // verus!
