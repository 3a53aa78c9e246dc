//! Smart views, how the active view is stored in the settings, and the names of
//! saved views.
use vstd::prelude::*;
use vstd::string::StringExecFns;

use crate::ids::{SavedViewId, hyphenated, lemma_hyphenated_injective, parsed_uuid};
use crate::query::{SavedBaseView, SavedView};
use crate::text::{
    append_chars, char_count, chars_of, eq_ignore_ascii_case, equal_ignoring_ascii_case,
    has_prefix, same_text, starts_with_chars, string_of_range, trim, trimmed,
};

verus! {

/// The views of the sidebar: the fixed smart views and the saved views.
#[derive(Clone, Copy, Debug, PartialEq, Eq, Structural)]
pub enum SmartView {
    Today,
    Upcoming,
    Overdue,
    Undated,
    All,
    Doing,
    Blocked,
    Done,
    Archived,
    Trash,
    Saved(SavedViewId),
}

/// The settings text that stores `view`.
pub open spec fn setting_text(view: SmartView) -> Seq<char> {
    match view {
        SmartView::Today => "today"@,
        SmartView::Upcoming => "upcoming"@,
        SmartView::Overdue => "overdue"@,
        SmartView::Undated => "undated"@,
        SmartView::All => "all"@,
        SmartView::Doing => "doing"@,
        SmartView::Blocked => "blocked"@,
        SmartView::Done => "done"@,
        SmartView::Archived => "archived"@,
        SmartView::Trash => "trash"@,
        SmartView::Saved(id) => "saved:"@ + hyphenated(id.value),
    }
}

/// The saved-view identifier that `rest` denotes: the UUID whose hyphenated form it
/// is, or else what `Uuid::parse_str` reads from it.
pub open spec fn saved_id_in(rest: Seq<char>) -> Option<SavedViewId> {
    if exists|v: u128| rest == hyphenated(v) {
        Some(SavedViewId { value: choose|v: u128| rest == hyphenated(v) })
    } else {
        match parsed_uuid(rest) {
            Some(v) => Some(SavedViewId { value: v }),
            None => None,
        }
    }
}

/// The view that a stored settings text reopens. Retired project and tag panes
/// reopen as All, `inbox` as All, and anything unknown as Today.
pub open spec fn view_of_setting(value: Seq<char>) -> SmartView {
    let rest = value.subrange("saved:"@.len() as int, value.len() as int);
    if has_prefix(value, "project:"@) || has_prefix(value, "tag:"@) {
        SmartView::All
    } else if has_prefix(value, "saved:"@) && saved_id_in(rest) is Some {
        SmartView::Saved(saved_id_in(rest).unwrap())
    } else if value == "inbox"@ {
        SmartView::All
    } else if value == "upcoming"@ {
        SmartView::Upcoming
    } else if value == "overdue"@ {
        SmartView::Overdue
    } else if value == "undated"@ {
        SmartView::Undated
    } else if value == "all"@ {
        SmartView::All
    } else if value == "doing"@ {
        SmartView::Doing
    } else if value == "blocked"@ {
        SmartView::Blocked
    } else if value == "done"@ {
        SmartView::Done
    } else if value == "archived"@ {
        SmartView::Archived
    } else if value == "trash"@ {
        SmartView::Trash
    } else {
        SmartView::Today
    }
}

fn literal_is(chars: &Vec<char>, word: &str) -> (r: bool)
    ensures
        r == (chars@ == word@),
{
    let text = crate::text::string_of(chars);
    same_text(text.as_str(), word)
}

fn has_literal_prefix(chars: &Vec<char>, word: &str) -> (r: bool)
    ensures
        r == has_prefix(chars@, word@),
{
    let w = chars_of(word);
    starts_with_chars(chars, &w)
}

/// The view that the stored settings text `value` reopens.
pub fn smart_view_from_setting(value: &str) -> (r: SmartView)
    ensures
        r == view_of_setting(value@),
{
    let chars = chars_of(value);
    if has_literal_prefix(&chars, "project:") || has_literal_prefix(&chars, "tag:") {
        return SmartView::All;
    }
    if has_literal_prefix(&chars, "saved:") {
        proof {
            reveal_strlit("saved:");
        }
        let rest = string_of_range(&chars, 6, chars.len());
        match SavedViewId::parse(rest.as_str()) {
            Some(id) => {
                proof {
                    let rs = value@.subrange("saved:"@.len() as int, value@.len() as int);
                    assert(rest@ == rs);
                    if exists|v: u128| rs == hyphenated(v) {
                        let v = choose|v: u128| rs == hyphenated(v);
                        assert(id.value == v);
                    }
                }
                return SmartView::Saved(id);
            },
            None => {
                proof {
                    let rs = value@.subrange("saved:"@.len() as int, value@.len() as int);
                    assert(rest@ == rs);
                    if exists|v: u128| rs == hyphenated(v) {
                        let v = choose|v: u128| rs == hyphenated(v);
                        assert(false);
                    }
                }
            },
        }
    }
    if literal_is(&chars, "inbox") {
        SmartView::All
    } else if literal_is(&chars, "upcoming") {
        SmartView::Upcoming
    } else if literal_is(&chars, "overdue") {
        SmartView::Overdue
    } else if literal_is(&chars, "undated") {
        SmartView::Undated
    } else if literal_is(&chars, "all") {
        SmartView::All
    } else if literal_is(&chars, "doing") {
        SmartView::Doing
    } else if literal_is(&chars, "blocked") {
        SmartView::Blocked
    } else if literal_is(&chars, "done") {
        SmartView::Done
    } else if literal_is(&chars, "archived") {
        SmartView::Archived
    } else if literal_is(&chars, "trash") {
        SmartView::Trash
    } else {
        SmartView::Today
    }
}

/// The settings text that stores `view`.
pub fn smart_view_setting(view: SmartView) -> (r: String)
    ensures
        r@ == setting_text(view),
{
    match view {
        SmartView::Today => String::from_str("today"),
        SmartView::Upcoming => String::from_str("upcoming"),
        SmartView::Overdue => String::from_str("overdue"),
        SmartView::Undated => String::from_str("undated"),
        SmartView::All => String::from_str("all"),
        SmartView::Doing => String::from_str("doing"),
        SmartView::Blocked => String::from_str("blocked"),
        SmartView::Done => String::from_str("done"),
        SmartView::Archived => String::from_str("archived"),
        SmartView::Trash => String::from_str("trash"),
        SmartView::Saved(id) => {
            let mut s = String::from_str("saved:");
            let text = id.text();
            let chars = chars_of(text.as_str());
            append_chars(&mut s, &chars);
            s
        },
    }
}

/// Reopening a stored view gives back the view that was stored: for every view,
/// reading the settings text that stores it yields that same view.
pub proof fn lemma_setting_round_trip(view: SmartView)
    ensures
        view_of_setting(setting_text(view)) == view,
{
    reveal_strlit("today");
    reveal_strlit("upcoming");
    reveal_strlit("overdue");
    reveal_strlit("undated");
    reveal_strlit("all");
    reveal_strlit("doing");
    reveal_strlit("blocked");
    reveal_strlit("done");
    reveal_strlit("archived");
    reveal_strlit("trash");
    reveal_strlit("inbox");
    reveal_strlit("project:");
    reveal_strlit("tag:");
    reveal_strlit("saved:");
    let text = setting_text(view);
    match view {
        SmartView::Saved(id) => {
            let rest = text.subrange(6, text.len() as int);
            assert(rest =~= hyphenated(id.value));
            assert(text[0] == 's');
            assert(text.subrange(0, 6) =~= "saved:"@);
            assert(!has_prefix(text, "project:"@)) by {
                assert(text.subrange(0, 8)[0] != "project:"@[0]);
            }
            assert(!has_prefix(text, "tag:"@)) by {
                assert(text.subrange(0, 4)[0] != "tag:"@[0]);
            }
            assert(exists|v: u128| rest == hyphenated(v));
            let v = choose|v: u128| rest == hyphenated(v);
            lemma_hyphenated_injective(v, id.value);
        },
        _ => {
            assert(!has_prefix(text, "project:"@)) by {
                if text.len() >= 8 {
                    assert(text.subrange(0, 8)[0] != "project:"@[0] || text.subrange(0, 8)[1]
                        != "project:"@[1]);
                }
            }
            assert(!has_prefix(text, "tag:"@)) by {
                if text.len() >= 4 {
                    assert(text.subrange(0, 4)[0] != "tag:"@[0] || text.subrange(0, 4)[1]
                        != "tag:"@[1]);
                }
            }
            assert(!has_prefix(text, "saved:"@)) by {
                if text.len() >= 6 {
                    assert(text.subrange(0, 6)[0] != "saved:"@[0] || text.subrange(0, 6)[1]
                        != "saved:"@[1]);
                }
            }
            assert(text != "inbox"@) by {
                if text.len() == 5 {
                    assert(text[0] != "inbox"@[0]);
                }
            }
            assert(view != SmartView::Upcoming ==> text != "upcoming"@) by {
                if text.len() == 8 && view != SmartView::Upcoming {
                    assert(text[0] != "upcoming"@[0]);
                }
            }
            assert(view != SmartView::Overdue ==> text != "overdue"@) by {
                if text.len() == 7 && view != SmartView::Overdue {
                    assert(text[0] != "overdue"@[0]);
                }
            }
            assert(view != SmartView::Undated ==> text != "undated"@) by {
                if text.len() == 7 && view != SmartView::Undated {
                    assert(text[0] != "undated"@[0]);
                }
            }
            assert(view != SmartView::All ==> text != "all"@) by {
                if text.len() == 3 && view != SmartView::All {
                    assert(text[0] != "all"@[0]);
                }
            }
            assert(view != SmartView::Doing ==> text != "doing"@) by {
                if text.len() == 5 && view != SmartView::Doing {
                    assert(text[0] != "doing"@[0]);
                }
            }
            assert(view != SmartView::Blocked ==> text != "blocked"@) by {
                if text.len() == 7 && view != SmartView::Blocked {
                    assert(text[0] != "blocked"@[0]);
                }
            }
            assert(view != SmartView::Done ==> text != "done"@) by {
                if text.len() == 4 && view != SmartView::Done {
                    assert(text[0] != "done"@[0] || text[1] != "done"@[1]);
                }
            }
            assert(view != SmartView::Archived ==> text != "archived"@) by {
                if text.len() == 8 && view != SmartView::Archived {
                    assert(text[0] != "archived"@[0]);
                }
            }
            assert(view != SmartView::Trash ==> text != "trash"@) by {
                if text.len() == 5 && view != SmartView::Trash {
                    assert(text[0] != "trash"@[0] || text[1] != "trash"@[1]);
                }
            }
        },
    }
}

/// The label of the active view in the list header.
pub open spec fn view_label(view: SmartView, saved: Seq<SavedView>) -> Seq<char> {
    match view {
        SmartView::Today => "今日"@,
        SmartView::Upcoming => "今後7日"@,
        SmartView::Overdue => "期限超過"@,
        SmartView::Undated => "納期未定"@,
        SmartView::All => "すべて"@,
        SmartView::Doing => "進行中"@,
        SmartView::Blocked => "保留"@,
        SmartView::Done => "完了"@,
        SmartView::Archived => "アーカイブ"@,
        SmartView::Trash => "ゴミ箱"@,
        SmartView::Saved(id) => if exists|i: int| 0 <= i < saved.len() && saved[i].id == id {
            saved[first_with_id(saved, id)].name@
        } else {
            "保存済みビュー"@
        },
    }
}

/// The position of the first saved view with identifier `id`.
pub open spec fn first_with_id(saved: Seq<SavedView>, id: SavedViewId) -> int {
    choose|i: int|
        0 <= i < saved.len() && saved[i].id == id && forall|j: int| 0 <= j < i ==> saved[j].id != id
}

/// The position of the first saved view with identifier `id`, if any.
pub fn find_saved_view(saved: &Vec<SavedView>, id: SavedViewId) -> (r: Option<usize>)
    ensures
        r is None <==> !(exists|i: int| 0 <= i < saved@.len() && saved@[i].id == id),
        r matches Some(i) ==> i < saved@.len() && saved@[i as int].id == id && (forall|j: int|
            0 <= j < i ==> saved@[j].id != id) && i == first_with_id(saved@, id),
{
    let mut i: usize = 0;
    while i < saved.len()
        invariant
            i <= saved.len(),
            forall|j: int| 0 <= j < i ==> saved@[j].id != id,
        decreases saved.len() - i,
    {
        if saved[i].id == id {
            proof {
                let k = first_with_id(saved@, id);
                assert(0 <= k < saved@.len() && saved@[k].id == id && forall|j: int|
                    0 <= j < k ==> saved@[j].id != id) by {
                    assert(0 <= i < saved@.len() && saved@[i as int].id == id && forall|j: int|
                        0 <= j < i ==> saved@[j].id != id);
                }
                if k < i {
                    assert(saved@[k].id != id);
                } else if k > i {
                    assert(saved@[i as int].id != id);
                }
            }
            return Some(i);
        }
        i = i + 1;
    }
    None
}

/// The label of the active view in the list header.
pub fn active_view_label(view: SmartView, saved: &Vec<SavedView>) -> (r: String)
    ensures
        r@ == view_label(view, saved@),
{
    match view {
        SmartView::Today => String::from_str("今日"),
        SmartView::Upcoming => String::from_str("今後7日"),
        SmartView::Overdue => String::from_str("期限超過"),
        SmartView::Undated => String::from_str("納期未定"),
        SmartView::All => String::from_str("すべて"),
        SmartView::Doing => String::from_str("進行中"),
        SmartView::Blocked => String::from_str("保留"),
        SmartView::Done => String::from_str("完了"),
        SmartView::Archived => String::from_str("アーカイブ"),
        SmartView::Trash => String::from_str("ゴミ箱"),
        SmartView::Saved(id) => match find_saved_view(saved, id) {
            Some(i) => saved[i].name.clone(),
            None => String::from_str("保存済みビュー"),
        },
    }
}

/// The name the view-management input shows for `view`: the saved view's name, or
/// nothing for a smart view or a saved view that no longer exists.
pub open spec fn management_name(view: SmartView, saved: Seq<SavedView>) -> Seq<char> {
    match view {
        SmartView::Saved(id) => if exists|i: int| 0 <= i < saved.len() && saved[i].id == id {
            saved[first_with_id(saved, id)].name@
        } else {
            Seq::empty()
        },
        _ => Seq::empty(),
    }
}

/// The text put into the view-management input when `view` becomes active.
pub fn management_view_name(view: SmartView, saved: &Vec<SavedView>) -> (r: String)
    ensures
        r@ == management_name(view, saved@),
{
    match view {
        SmartView::Saved(id) => match find_saved_view(saved, id) {
            Some(i) => saved[i].name.clone(),
            None => String::new(),
        },
        _ => String::new(),
    }
}

/// The smart view that a saved view created from `view` starts from.
pub open spec fn base_of_view(view: SmartView, saved: Seq<SavedView>) -> Option<SavedBaseView> {
    match view {
        SmartView::Today => Some(SavedBaseView::Today),
        SmartView::Upcoming => Some(SavedBaseView::Upcoming),
        SmartView::Overdue => Some(SavedBaseView::Overdue),
        SmartView::Undated => Some(SavedBaseView::Undated),
        SmartView::All => None,
        SmartView::Doing => Some(SavedBaseView::Doing),
        SmartView::Blocked => Some(SavedBaseView::Blocked),
        SmartView::Done => Some(SavedBaseView::Done),
        SmartView::Archived => Some(SavedBaseView::Archived),
        SmartView::Trash => Some(SavedBaseView::Trash),
        SmartView::Saved(id) => if exists|i: int| 0 <= i < saved.len() && saved[i].id == id {
            saved[first_with_id(saved, id)].filter.base_view
        } else {
            None
        },
    }
}

/// The smart view that a saved view created from `view` starts from.
pub fn saved_base_view(view: SmartView, saved: &Vec<SavedView>) -> (r: Option<SavedBaseView>)
    ensures
        r == base_of_view(view, saved@),
{
    match view {
        SmartView::Today => Some(SavedBaseView::Today),
        SmartView::Upcoming => Some(SavedBaseView::Upcoming),
        SmartView::Overdue => Some(SavedBaseView::Overdue),
        SmartView::Undated => Some(SavedBaseView::Undated),
        SmartView::All => None,
        SmartView::Doing => Some(SavedBaseView::Doing),
        SmartView::Blocked => Some(SavedBaseView::Blocked),
        SmartView::Done => Some(SavedBaseView::Done),
        SmartView::Archived => Some(SavedBaseView::Archived),
        SmartView::Trash => Some(SavedBaseView::Trash),
        SmartView::Saved(id) => match find_saved_view(saved, id) {
            Some(i) => saved[i].filter.base_view,
            None => None,
        },
    }
}

/// The message for a saved-view name that is blank or longer than 100 characters.
pub open spec fn view_name_length_error() -> Seq<char> {
    "保存ビュー名は1〜100文字で入力してください"@
}

/// The message for a saved-view name that another saved view already has.
pub open spec fn view_name_taken_error() -> Seq<char> {
    "同じ名前の保存済みビューが既にあります"@
}

/// Some saved view other than `except` is named `name`, ignoring ASCII case.
pub open spec fn name_taken(saved: Seq<SavedView>, name: Seq<char>, except: Option<SavedViewId>) -> bool {
    exists|i: int|
        0 <= i < saved.len() && Some(saved[i].id) != except && equal_ignoring_ascii_case(
            saved[i].name@,
            name,
        )
}

fn name_in_use(saved: &Vec<SavedView>, name: &Vec<char>, except: Option<SavedViewId>) -> (r: bool)
    ensures
        r == name_taken(saved@, name@, except),
{
    let mut i: usize = 0;
    while i < saved.len()
        invariant
            i <= saved.len(),
            forall|j: int|
                0 <= j < i ==> !(Some(#[trigger] saved@[j].id) != except && equal_ignoring_ascii_case(
                    saved@[j].name@,
                    name@,
                )),
        decreases saved.len() - i,
    {
        let other = chars_of(saved[i].name.as_str());
        if Some(saved[i].id) != except && eq_ignore_ascii_case(&other, name) {
            return true;
        }
        i = i + 1;
    }
    false
}

/// The name for a new saved view typed as `name`: trimmed, with at most 100
/// characters as typed, and not yet used by another saved view.
pub fn validate_new_view_name(name: &str, saved: &Vec<SavedView>) -> (r: Result<String, String>)
    ensures
        trimmed(name@).len() == 0 || name@.len() > 100 ==> (r matches Err(m) && m@
            == view_name_length_error()),
        !(trimmed(name@).len() == 0 || name@.len() > 100) && name_taken(saved@, trimmed(name@), None)
            ==> (r matches Err(m) && m@ == view_name_taken_error()),
        !(trimmed(name@).len() == 0 || name@.len() > 100) && !name_taken(
            saved@,
            trimmed(name@),
            None,
        ) ==> (r matches Ok(n) && n@ == trimmed(name@)),
{
    let t = trim(name);
    if char_count(t.as_str()) == 0 || char_count(name) > 100 {
        return Err(String::from_str("保存ビュー名は1〜100文字で入力してください"));
    }
    let tc = chars_of(t.as_str());
    if name_in_use(saved, &tc, None) {
        return Err(String::from_str("同じ名前の保存済みビューが既にあります"));
    }
    Ok(t)
}

/// The new name for the active saved view `id` typed as `name`: none when the
/// trimmed name is blank (the old name stays), else the trimmed name when it has
/// at most 100 characters and no other saved view uses it.
pub fn validate_renamed_view_name(name: &str, id: SavedViewId, saved: &Vec<SavedView>) -> (r: Result<
    Option<String>,
    String,
>)
    ensures
        trimmed(name@).len() == 0 ==> r matches Ok(None),
        trimmed(name@).len() > 100 ==> (r matches Err(m) && m@ == view_name_length_error()),
        0 < trimmed(name@).len() <= 100 && name_taken(saved@, trimmed(name@), Some(id))
            ==> (r matches Err(m) && m@ == view_name_taken_error()),
        0 < trimmed(name@).len() <= 100 && !name_taken(saved@, trimmed(name@), Some(id))
            ==> (r matches Ok(Some(n)) && n@ == trimmed(name@)),
{
    let t = trim(name);
    let n = char_count(t.as_str());
    if n == 0 {
        return Ok(None);
    }
    if n > 100 {
        return Err(String::from_str("保存ビュー名は1〜100文字で入力してください"));
    }
    let tc = chars_of(t.as_str());
    if name_in_use(saved, &tc, Some(id)) {
        return Err(String::from_str("同じ名前の保存済みビューが既にあります"));
    }
    Ok(Some(t))
}

} // verus!
