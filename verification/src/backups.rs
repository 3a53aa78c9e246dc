//! Names of backup and export files, which backups are automatic, which of them the
//! daily rotation prunes, and which backups the data panel lists.
use vstd::prelude::*;
use vstd::string::StringExecFns;

use crate::calendar::{CivilDate, Timestamp};
use crate::due::{date_text, date_text_string};
use crate::ordering::{text_before, lemma_text_not_before};
use crate::sorting::{is_index_permutation, labels_ordered, stable_label_order};
use crate::text::{
    append_chars, append_str, chars_of, decimal, decimal_chars, ends_with_chars, has_prefix,
    has_suffix, is_digit, same_text, starts_with_chars, string_of,
};

use crate::seqs::lemma_filter_push;

verus! {

/// Automatic backups kept by the daily rotation.
pub const KEPT_AUTOMATIC_BACKUPS: usize = 5;

/// Backups listed in the data panel.
pub const LISTED_BACKUPS: usize = 8;

/// `hodoq-YYYY-MM-DD.sqlite3`, with digits where the pattern has letters: the name
/// of a daily automatic backup.
pub open spec fn automatic_backup_name(name: Seq<char>) -> bool {
    &&& name.len() == 24
    &&& has_prefix(name, "hodoq-"@)
    &&& has_suffix(name, ".sqlite3"@)
    &&& forall|i: int|
        0 <= i < 10 ==> if i == 4 || i == 7 {
            #[trigger] name[6 + i] == '-'
        } else {
            is_digit(name[6 + i])
        }
}

/// A file name whose extension is `sqlite3`: it ends with `.sqlite3` after a
/// non-empty stem.
pub open spec fn sqlite_name(name: Seq<char>) -> bool {
    name.len() > 8 && has_suffix(name, ".sqlite3"@)
}

/// Whether the file `name` is a daily automatic backup.
pub fn is_automatic_backup(name: &str) -> (r: bool)
    ensures
        r == automatic_backup_name(name@),
{
    let chars = chars_of(name);
    let prefix = chars_of("hodoq-");
    let suffix = chars_of(".sqlite3");
    proof {
        reveal_strlit("hodoq-");
        reveal_strlit(".sqlite3");
    }
    if chars.len() != 24 || !starts_with_chars(&chars, &prefix) || !ends_with_chars(&chars, &suffix) {
        return false;
    }
    let mut i: usize = 0;
    while i < 10
        invariant
            i <= 10,
            chars@ == name@,
            chars.len() == 24,
            forall|j: int|
                0 <= j < i ==> if j == 4 || j == 7 {
                    #[trigger] chars@[6 + j] == '-'
                } else {
                    is_digit(chars@[6 + j])
                },
        decreases 10 - i,
    {
        let c = chars[6 + i];
        let ok = if i == 4 || i == 7 {
            c == '-'
        } else {
            '0' <= c && c <= '9'
        };
        if !ok {
            assert(!(if i == 4 || i == 7 {
                chars@[6 + i as int] == '-'
            } else {
                is_digit(chars@[6 + i as int])
            }));
            return false;
        }
        i = i + 1;
    }
    true
}

/// Whether the file `name` has the extension `sqlite3`.
pub fn is_sqlite_file(name: &str) -> (r: bool)
    ensures
        r == sqlite_name(name@),
{
    let chars = chars_of(name);
    let suffix = chars_of(".sqlite3");
    proof {
        reveal_strlit(".sqlite3");
    }
    chars.len() > 8 && ends_with_chars(&chars, &suffix)
}

/// The name of the automatic backup of `today`: `hodoq-YYYY-MM-DD.sqlite3`.
pub fn daily_backup_name(today: &CivilDate) -> (r: String)
    requires
        today.wf(),
    ensures
        r@ == "hodoq-"@ + date_text(*today) + ".sqlite3"@,
{
    let mut s = String::from_str("hodoq-");
    let d = date_text_string(today);
    append_str(&mut s, d.as_str());
    append_str(&mut s, ".sqlite3");
    s
}

/// An integer in decimal, with a minus sign when negative.
pub open spec fn signed_decimal(n: int) -> Seq<char> {
    if n < 0 {
        seq!['-'] + decimal((-n) as nat)
    } else {
        decimal(n as nat)
    }
}

/// `{prefix}{milliseconds since 1970}{suffix}`: the name of a manual backup
/// (`hodoq-manual-`, `.sqlite3`), an export (`hodoq-`, `.csv` or `.json`) or the
/// safety copy made before a restore (`hodoq-before-restore-`, `.sqlite3`).
pub fn stamped_file_name(prefix: &str, at: &Timestamp, suffix: &str) -> (r: String)
    requires
        at.wf(),
    ensures
        at.nanos >= 0 ==> r@ == prefix@ + signed_decimal((at.nanos as int) / 1_000_000) + suffix@,
        at.nanos < 0 ==> r@ == prefix@ + signed_decimal(-((-(at.nanos as int)) / 1_000_000)) + suffix@,
{
    let millis = at.unix_millis();
    let mut s = String::from_str(prefix);
    if millis < 0 {
        append_str(&mut s, "-");
        proof {
            reveal_strlit("-");
        }
        let digits = decimal_chars((-millis) as u64);
        append_chars(&mut s, &digits);
    } else {
        let digits = decimal_chars(millis as u64);
        append_chars(&mut s, &digits);
    }
    append_str(&mut s, suffix);
    s
}

/// `names` in some order: `p` lists each position once.
pub open spec fn picks(names: Seq<Seq<char>>, p: Seq<usize>, n: int) -> Seq<Seq<char>> {
    Seq::new(n as nat, |k: int| names[p[k] as int])
}

/// The automatic backups among `names`, in their order.
pub open spec fn automatic_names(names: Seq<Seq<char>>) -> Seq<Seq<char>> {
    names.filter(|n: Seq<char>| automatic_backup_name(n))
}

/// The files with the extension `sqlite3` among `names`, in their order.
pub open spec fn sqlite_names(names: Seq<Seq<char>>) -> Seq<Seq<char>> {
    names.filter(|n: Seq<char>| sqlite_name(n))
}

fn keep_names(names: &Vec<String>, automatic: bool) -> (r: Vec<Vec<char>>)
    ensures
        automatic ==> r@.map_values(|c: Vec<char>| c@) == automatic_names(names@.map_values(|s: String| s@)),
        !automatic ==> r@.map_values(|c: Vec<char>| c@) == sqlite_names(names@.map_values(|s: String| s@)),
{
    let ghost src = names@.map_values(|s: String| s@);
    let ghost pred = if automatic {
        |n: Seq<char>| automatic_backup_name(n)
    } else {
        |n: Seq<char>| sqlite_name(n)
    };
    let mut out: Vec<Vec<char>> = Vec::new();
    let mut i: usize = 0;
    while i < names.len()
        invariant
            i <= names.len(),
            src == names@.map_values(|s: String| s@),
            pred == if automatic {
                |n: Seq<char>| automatic_backup_name(n)
            } else {
                |n: Seq<char>| sqlite_name(n)
            },
            out@.map_values(|c: Vec<char>| c@) == src.subrange(0, i as int).filter(pred),
        decreases names.len() - i,
    {
        let ghost v = names@[i as int]@;
        proof {
            assert(src[i as int] == v);
            assert(src.subrange(0, i + 1) == src.subrange(0, i as int).push(v));
            lemma_filter_push(src.subrange(0, i as int), pred, v);
        }
        let keep = if automatic {
            is_automatic_backup(names[i].as_str())
        } else {
            is_sqlite_file(names[i].as_str())
        };
        if keep {
            let ghost before = out@;
            out.push(chars_of(names[i].as_str()));
            proof {
                assert(out@.map_values(|c: Vec<char>| c@) =~= before.map_values(|c: Vec<char>| c@).push(v));
            }
        }
        i = i + 1;
    }
    proof {
        assert(src.subrange(0, src.len() as int) == src);
    }
    out
}

/// The name of the automatic backup of `today`.
pub open spec fn daily_name(today: CivilDate) -> Seq<char> {
    "hodoq-"@ + date_text(today) + ".sqlite3"@
}

/// Some file of `names` is called `name`.
pub open spec fn has_file(names: Seq<String>, name: Seq<char>) -> bool {
    exists|i: int| 0 <= i < names.len() && names[i]@ == name
}

/// The backup to create today: the name of today's automatic backup when no file of
/// `names` has it, nothing when it exists already.
pub fn daily_backup_due(names: &Vec<String>, today: &CivilDate) -> (r: Option<String>)
    requires
        today.wf(),
    ensures
        r is Some <==> !has_file(names@, daily_name(*today)),
        r matches Some(n) ==> n@ == daily_name(*today),
{
    let name = daily_backup_name(today);
    let ghost target = daily_name(*today);
    let mut i: usize = 0;
    while i < names.len()
        invariant
            i <= names.len(),
            target == daily_name(*today),
            name@ == target,
            forall|j: int| 0 <= j < i ==> names@[j]@ != target,
        decreases names.len() - i,
    {
        if same_text(names[i].as_str(), name.as_str()) {
            proof {
                assert(names@[i as int]@ == target);
            }
            return None;
        }
        i = i + 1;
    }
    Some(name)
}

/// The automatic backups that the daily rotation deletes: all but the 5 that come
/// last in name order (the newest), oldest first.
pub fn backups_to_prune(names: &Vec<String>) -> (r: Vec<String>)
    ensures
        ({
            let auto = automatic_names(names@.map_values(|s: String| s@));
            let n = if auto.len() > KEPT_AUTOMATIC_BACKUPS {
                auto.len() - KEPT_AUTOMATIC_BACKUPS
            } else {
                0
            };
            exists|p: Seq<usize>|
                #![trigger labels_ordered(auto, p)]
                is_index_permutation(p, auto.len() as int) && labels_ordered(auto, p) && r@.map_values(
                    |s: String| s@,
                ) == picks(auto, p, n)
        }),
{
    let auto = keep_names(names, true);
    let ghost av = auto@.map_values(|c: Vec<char>| c@);
    let order = stable_label_order(&auto);
    let n: usize = if auto.len() > KEPT_AUTOMATIC_BACKUPS {
        auto.len() - KEPT_AUTOMATIC_BACKUPS
    } else {
        0
    };
    let mut out: Vec<String> = Vec::new();
    let mut k: usize = 0;
    while k < n
        invariant
            k <= n <= order.len() == auto.len(),
            av == auto@.map_values(|c: Vec<char>| c@),
            av == automatic_names(names@.map_values(|s: String| s@)),
            is_index_permutation(order@, auto.len() as int),
            labels_ordered(av, order@),
            n == if av.len() > KEPT_AUTOMATIC_BACKUPS {
                av.len() - KEPT_AUTOMATIC_BACKUPS
            } else {
                0
            },
            out@.map_values(|s: String| s@) == picks(av, order@, k as int),
        decreases n - k,
    {
        let ghost before = out@;
        let name = string_of(&auto[order[k]]);
        proof {
            assert(av[order@[k as int] as int] == auto@[order@[k as int] as int]@);
            assert(name@ == av[order@[k as int] as int]);
        }
        out.push(name);
        proof {
            assert(out@ == before.push(name));
            assert(out@.map_values(|s: String| s@) =~= before.map_values(|s: String| s@).push(name@));
            assert(picks(av, order@, k + 1) =~= picks(av, order@, k as int).push(name@));
        }
        k = k + 1;
    }
    out
}

/// Neighbours of `p` never go up in name order.
pub open spec fn labels_descending(labels: Seq<Seq<char>>, p: Seq<usize>) -> bool {
    forall|k: int| 0 <= k < p.len() - 1 ==> !text_before(#[trigger] labels[p[k] as int], labels[p[k + 1] as int])
}

/// The backups the data panel lists: the files with the extension `sqlite3`, newest
/// (last in name order) first, at most 8.
pub fn list_backup_files(names: &Vec<String>) -> (r: Vec<String>)
    ensures
        ({
            let files = sqlite_names(names@.map_values(|s: String| s@));
            let n = if files.len() > LISTED_BACKUPS {
                LISTED_BACKUPS as int
            } else {
                files.len() as int
            };
            exists|p: Seq<usize>|
                #![trigger labels_descending(files, p)]
                is_index_permutation(p, files.len() as int) && labels_descending(files, p) && r@.map_values(
                    |s: String| s@,
                ) == picks(files, p, n)
        }),
{
    let files = keep_names(names, false);
    let ghost fv = files@.map_values(|c: Vec<char>| c@);
    let up = stable_label_order(&files);
    let m = up.len();
    let mut down: Vec<usize> = Vec::new();
    let mut k: usize = 0;
    while k < m
        invariant
            k <= m == up.len() == files.len(),
            down.len() == k,
            forall|j: int| 0 <= j < k ==> #[trigger] down@[j] == up@[m - 1 - j],
        decreases m - k,
    {
        down.push(up[m - 1 - k]);
        k = k + 1;
    }
    proof {
        assert(fv.len() == files.len());
        assert(labels_ordered(fv, up@));
        assert forall|j: int| 0 <= j < down.len() implies down@[j] < m by {
            assert(down@[j] == up@[m - 1 - j]);
        }
        assert forall|a: int, b: int| 0 <= a < down.len() && 0 <= b < down.len() && a != b implies down@[a]
            != down@[b] by {
            assert(down@[a] == up@[m - 1 - a]);
            assert(down@[b] == up@[m - 1 - b]);
        }
        assert(down@.no_duplicates());
        assert(is_index_permutation(down@, fv.len() as int));
        assert forall|j: int| 0 <= j < down.len() - 1 implies !text_before(
            #[trigger] fv[down@[j] as int],
            fv[down@[j + 1] as int],
        ) by {
            let q = m - 2 - j;
            assert(down@[j] == up@[q + 1]);
            assert(down@[j + 1] == up@[q]);
            lemma_text_not_before(fv[up@[q + 1] as int], fv[up@[q] as int]);
            crate::ordering::lemma_text_order_antisymmetric(fv[up@[q] as int], fv[up@[q + 1] as int]);
        }
    }
    let n: usize = if m > LISTED_BACKUPS {
        LISTED_BACKUPS
    } else {
        m
    };
    let mut out: Vec<String> = Vec::new();
    let mut i: usize = 0;
    while i < n
        invariant
            i <= n <= down.len() == files.len(),
            fv == files@.map_values(|c: Vec<char>| c@),
            fv == sqlite_names(names@.map_values(|s: String| s@)),
            is_index_permutation(down@, fv.len() as int),
            labels_descending(fv, down@),
            n == if fv.len() > LISTED_BACKUPS {
                LISTED_BACKUPS as int
            } else {
                fv.len() as int
            },
            out@.map_values(|s: String| s@) == picks(fv, down@, i as int),
        decreases n - i,
    {
        let ghost before = out@;
        let name = string_of(&files[down[i]]);
        proof {
            assert(fv[down@[i as int] as int] == files@[down@[i as int] as int]@);
            assert(name@ == fv[down@[i as int] as int]);
        }
        out.push(name);
        proof {
            assert(out@ == before.push(name));
            assert(out@.map_values(|s: String| s@) =~= before.map_values(|s: String| s@).push(name@));
            assert(picks(fv, down@, i + 1) =~= picks(fv, down@, i as int).push(name@));
        }
        i = i + 1;
    }
    out
}

/// The documented limits: the daily rotation keeps the five newest automatic
/// backups, the restore list offers at most eight backups, and the undo history
/// keeps fifty entries.
pub proof fn lemma_documented_limits()
    ensures
        KEPT_AUTOMATIC_BACKUPS == 5,
        LISTED_BACKUPS == 8,
        crate::history::HISTORY_LIMIT == 50,
{
}

} // verus!
