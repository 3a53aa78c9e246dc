//! Projects and tags, and how recorded changes to them are applied.
use vstd::prelude::*;

use crate::ids::{ProjectId, TagId};

use crate::seqs::{lemma_filter_keeps_all, lemma_filter_push, lemma_first_match};

verus! {

/// A project a task can belong to.
#[derive(Clone, Debug)]
pub struct Project {
    pub id: ProjectId,
    pub name: String,
}

/// Some project of `projects` has identifier `id`.
pub open spec fn has_project(projects: Seq<Project>, id: ProjectId) -> bool {
    exists|i: int| 0 <= i < projects.len() && projects[i].id == id
}

/// The position of the first project with identifier `id`.
pub open spec fn first_project(projects: Seq<Project>, id: ProjectId) -> int {
    choose|i: int|
        0 <= i < projects.len() && projects[i].id == id && forall|j: int| 0 <= j < i ==> projects[j].id != id
}

/// A tag a task can carry.
#[derive(Clone, Debug)]
pub struct Tag {
    pub id: TagId,
    pub name: String,
}

impl Project {
    /// A copy with the same identifier and name.
    pub fn copy(&self) -> (r: Project)
        ensures
            r == *self,
    {
        Project { id: self.id, name: self.name.clone() }
    }
}

impl Tag {
    /// A copy with the same identifier and name.
    pub fn copy(&self) -> (r: Tag)
        ensures
            r == *self,
    {
        Tag { id: self.id, name: self.name.clone() }
    }
}

/// The position of the first project with identifier `id`, if any.
pub fn find_project(projects: &Vec<Project>, id: ProjectId) -> (r: Option<usize>)
    ensures
        r is None <==> !has_project(projects@, id),
        r matches Some(i) ==> i < projects.len() && i == first_project(projects@, id),
{
    let mut i: usize = 0;
    while i < projects.len()
        invariant
            i <= projects.len(),
            forall|j: int| 0 <= j < i ==> projects@[j].id != id,
        decreases projects.len() - i,
    {
        if projects[i].id == id {
            proof {
                let k = first_project(projects@, id);
                assert(0 <= i < projects@.len() && projects@[i as int].id == id && forall|j: int|
                    0 <= j < i ==> projects@[j].id != id);
                if k < i {
                    assert(projects@[k].id != id);
                } else if k > i {
                    assert(projects@[i as int].id != id);
                }
            }
            return Some(i);
        }
        i = i + 1;
    }
    None
}

/// Some tag of `tags` has identifier `id`.
pub open spec fn has_tag(tags: Seq<Tag>, id: TagId) -> bool {
    exists|i: int| 0 <= i < tags.len() && tags[i].id == id
}

/// The position of the first tag with identifier `id`.
pub open spec fn first_tag(tags: Seq<Tag>, id: TagId) -> int {
    choose|i: int| 0 <= i < tags.len() && tags[i].id == id && forall|j: int| 0 <= j < i ==> tags[j].id != id
}

/// The position of the first tag with identifier `id`, if any.
pub fn find_tag(tags: &Vec<Tag>, id: TagId) -> (r: Option<usize>)
    ensures
        r is None <==> !has_tag(tags@, id),
        r matches Some(i) ==> i < tags.len() && i == first_tag(tags@, id),
{
    let mut i: usize = 0;
    while i < tags.len()
        invariant
            i <= tags.len(),
            forall|j: int| 0 <= j < i ==> tags@[j].id != id,
        decreases tags.len() - i,
    {
        if tags[i].id == id {
            proof {
                let k = first_tag(tags@, id);
                assert(0 <= i < tags@.len() && tags@[i as int].id == id && forall|j: int|
                    0 <= j < i ==> tags@[j].id != id);
                if k < i {
                    assert(tags@[k].id != id);
                } else if k > i {
                    assert(tags@[i as int].id != id);
                }
            }
            return Some(i);
        }
        i = i + 1;
    }
    None
}

/// One project before and after a change.
#[derive(Clone, Debug)]
pub struct ProjectChange {
    pub before: Option<Project>,
    pub after: Option<Project>,
}

/// One tag before and after a change.
#[derive(Clone, Debug)]
pub struct TagChange {
    pub before: Option<Tag>,
    pub after: Option<Tag>,
}

/// The project a change is about.
pub open spec fn project_change_id(c: ProjectChange) -> ProjectId {
    match c.before {
        Some(p) => p.id,
        None => c.after.unwrap().id,
    }
}

/// The tag a change is about.
pub open spec fn tag_change_id(c: TagChange) -> TagId {
    match c.before {
        Some(t) => t.id,
        None => c.after.unwrap().id,
    }
}

/// `projects` with one change restored, as for tasks: the first project with the
/// identifier replaced (or the project appended), or every project with it removed.
pub open spec fn apply_project_change(projects: Seq<Project>, c: ProjectChange, use_after: bool) -> Seq<Project> {
    let id = project_change_id(c);
    match if use_after { c.after } else { c.before } {
        Some(p) => if has_project(projects, id) {
            projects.update(first_project(projects, id), p)
        } else {
            projects.push(p)
        },
        None => projects.filter(|x: Project| x.id != id),
    }
}

/// `tags` with one change restored.
pub open spec fn apply_tag_change(tags: Seq<Tag>, c: TagChange, use_after: bool) -> Seq<Tag> {
    let id = tag_change_id(c);
    match if use_after { c.after } else { c.before } {
        Some(t) => if has_tag(tags, id) {
            tags.update(first_tag(tags, id), t)
        } else {
            tags.push(t)
        },
        None => tags.filter(|x: Tag| x.id != id),
    }
}

/// `projects` with all changes restored in order.
pub open spec fn apply_project_changes(projects: Seq<Project>, cs: Seq<ProjectChange>, use_after: bool) -> Seq<Project>
    decreases cs.len(),
{
    if cs.len() == 0 {
        projects
    } else {
        apply_project_changes(apply_project_change(projects, cs[0], use_after), cs.drop_first(), use_after)
    }
}

/// `tags` with all changes restored in order.
pub open spec fn apply_tag_changes(tags: Seq<Tag>, cs: Seq<TagChange>, use_after: bool) -> Seq<Tag>
    decreases cs.len(),
{
    if cs.len() == 0 {
        tags
    } else {
        apply_tag_changes(apply_tag_change(tags, cs[0], use_after), cs.drop_first(), use_after)
    }
}

fn copy_project(p: &Option<Project>) -> (r: Option<Project>)
    ensures
        r == *p,
{
    match p {
        Some(x) => Some(x.copy()),
        None => None,
    }
}

fn copy_tag(t: &Option<Tag>) -> (r: Option<Tag>)
    ensures
        r == *t,
{
    match t {
        Some(x) => Some(x.copy()),
        None => None,
    }
}

/// Restores one project change.
pub fn apply_project_change_to(projects: &mut Vec<Project>, change: &ProjectChange, use_after: bool)
    requires
        change.before is Some || change.after is Some,
    ensures
        final(projects)@ == apply_project_change(old(projects)@, *change, use_after),
{
    let id = match &change.before {
        Some(p) => p.id,
        None => match &change.after {
            Some(p) => p.id,
            None => return,
        },
    };
    let state = if use_after {
        copy_project(&change.after)
    } else {
        copy_project(&change.before)
    };
    let ghost src = projects@;
    match state {
        Some(p) => match find_project(projects, id) {
            Some(i) => {
                projects.set(i, p);
            },
            None => {
                projects.push(p);
            },
        },
        None => {
            let ghost pred = |x: Project| x.id != id;
            let mut kept: Vec<Project> = Vec::new();
            let mut i: usize = 0;
            while i < projects.len()
                invariant
                    i <= projects.len(),
                    projects@ == src,
                    pred == (|x: Project| x.id != id),
                    kept@ == src.subrange(0, i as int).filter(pred),
                decreases projects.len() - i,
            {
                proof {
                    assert(src.subrange(0, i + 1) == src.subrange(0, i as int).push(src[i as int]));
                    lemma_filter_push(src.subrange(0, i as int), pred, src[i as int]);
                }
                if projects[i].id != id {
                    kept.push(projects[i].copy());
                }
                i = i + 1;
            }
            proof {
                assert(src.subrange(0, src.len() as int) == src);
            }
            *projects = kept;
        },
    }
}

/// Restores one tag change.
pub fn apply_tag_change_to(tags: &mut Vec<Tag>, change: &TagChange, use_after: bool)
    requires
        change.before is Some || change.after is Some,
    ensures
        final(tags)@ == apply_tag_change(old(tags)@, *change, use_after),
{
    let id = match &change.before {
        Some(t) => t.id,
        None => match &change.after {
            Some(t) => t.id,
            None => return,
        },
    };
    let state = if use_after {
        copy_tag(&change.after)
    } else {
        copy_tag(&change.before)
    };
    let ghost src = tags@;
    match state {
        Some(t) => match find_tag(tags, id) {
            Some(i) => {
                tags.set(i, t);
            },
            None => {
                tags.push(t);
            },
        },
        None => {
            let ghost pred = |x: Tag| x.id != id;
            let mut kept: Vec<Tag> = Vec::new();
            let mut i: usize = 0;
            while i < tags.len()
                invariant
                    i <= tags.len(),
                    tags@ == src,
                    pred == (|x: Tag| x.id != id),
                    kept@ == src.subrange(0, i as int).filter(pred),
                decreases tags.len() - i,
            {
                proof {
                    assert(src.subrange(0, i + 1) == src.subrange(0, i as int).push(src[i as int]));
                    lemma_filter_push(src.subrange(0, i as int), pred, src[i as int]);
                }
                if tags[i].id != id {
                    kept.push(tags[i].copy());
                }
                i = i + 1;
            }
            proof {
                assert(src.subrange(0, src.len() as int) == src);
            }
            *tags = kept;
        },
    }
}

/// Restores every project change of `changes`, in order.
pub fn apply_project_changes_to(projects: &mut Vec<Project>, changes: &Vec<ProjectChange>, use_after: bool)
    requires
        forall|i: int| 0 <= i < changes.len() ==> (#[trigger] changes@[i]).before is Some || changes@[i].after is Some,
    ensures
        final(projects)@ == apply_project_changes(old(projects)@, changes@, use_after),
{
    let ghost cs = changes@;
    let ghost start = projects@;
    let mut i: usize = 0;
    proof {
        assert(cs.skip(0) =~= cs);
    }
    while i < changes.len()
        invariant
            i <= changes.len(),
            cs == changes@,
            forall|k: int| 0 <= k < cs.len() ==> (#[trigger] cs[k]).before is Some || cs[k].after is Some,
            apply_project_changes(start, cs, use_after) == apply_project_changes(projects@, cs.skip(i as int), use_after),
        decreases changes.len() - i,
    {
        apply_project_change_to(projects, &changes[i], use_after);
        proof {
            let rest = cs.skip(i as int);
            assert(rest[0] == cs[i as int]);
            assert(rest.drop_first() =~= cs.skip(i + 1));
        }
        i = i + 1;
    }
    proof {
        assert(cs.skip(i as int).len() == 0);
    }
}

/// Restores every tag change of `changes`, in order.
pub fn apply_tag_changes_to(tags: &mut Vec<Tag>, changes: &Vec<TagChange>, use_after: bool)
    requires
        forall|i: int| 0 <= i < changes.len() ==> (#[trigger] changes@[i]).before is Some || changes@[i].after is Some,
    ensures
        final(tags)@ == apply_tag_changes(old(tags)@, changes@, use_after),
{
    let ghost cs = changes@;
    let ghost start = tags@;
    let mut i: usize = 0;
    proof {
        assert(cs.skip(0) =~= cs);
    }
    while i < changes.len()
        invariant
            i <= changes.len(),
            cs == changes@,
            forall|k: int| 0 <= k < cs.len() ==> (#[trigger] cs[k]).before is Some || cs[k].after is Some,
            apply_tag_changes(start, cs, use_after) == apply_tag_changes(tags@, cs.skip(i as int), use_after),
        decreases changes.len() - i,
    {
        apply_tag_change_to(tags, &changes[i], use_after);
        proof {
            let rest = cs.skip(i as int);
            assert(rest[0] == cs[i as int]);
            assert(rest.drop_first() =~= cs.skip(i + 1));
        }
        i = i + 1;
    }
    proof {
        assert(cs.skip(i as int).len() == 0);
    }
}


/// The projects that restoring `cs` stores, in order: each change's restored side
/// that holds a project.
pub open spec fn project_saves(cs: Seq<ProjectChange>, use_after: bool) -> Seq<Project>
    decreases cs.len(),
{
    if cs.len() == 0 {
        Seq::empty()
    } else {
        let prev = project_saves(cs.drop_last(), use_after);
        match if use_after { cs.last().after } else { cs.last().before } {
            Some(p) => prev.push(p),
            None => prev,
        }
    }
}

/// The projects that restoring `cs` deletes, in order: the identifier of each
/// change whose restored side is empty.
pub open spec fn project_deletes(cs: Seq<ProjectChange>, use_after: bool) -> Seq<ProjectId>
    decreases cs.len(),
{
    if cs.len() == 0 {
        Seq::empty()
    } else {
        let prev = project_deletes(cs.drop_last(), use_after);
        match if use_after { cs.last().after } else { cs.last().before } {
            Some(_) => prev,
            None => prev.push(project_change_id(cs.last())),
        }
    }
}

/// The tags that restoring `cs` stores, in order.
pub open spec fn tag_saves(cs: Seq<TagChange>, use_after: bool) -> Seq<Tag>
    decreases cs.len(),
{
    if cs.len() == 0 {
        Seq::empty()
    } else {
        let prev = tag_saves(cs.drop_last(), use_after);
        match if use_after { cs.last().after } else { cs.last().before } {
            Some(t) => prev.push(t),
            None => prev,
        }
    }
}

/// The tags that restoring `cs` deletes, in order.
pub open spec fn tag_deletes(cs: Seq<TagChange>, use_after: bool) -> Seq<TagId>
    decreases cs.len(),
{
    if cs.len() == 0 {
        Seq::empty()
    } else {
        let prev = tag_deletes(cs.drop_last(), use_after);
        match if use_after { cs.last().after } else { cs.last().before } {
            Some(_) => prev,
            None => prev.push(tag_change_id(cs.last())),
        }
    }
}

/// Splits project changes into the projects to store and the identifiers to delete
/// when restoring one side of them.
pub fn project_store_lists(changes: &Vec<ProjectChange>, use_after: bool) -> (r: (Vec<Project>, Vec<ProjectId>))
    requires
        forall|i: int| 0 <= i < changes.len() ==> (#[trigger] changes@[i]).before is Some || changes@[i].after is Some,
    ensures
        r.0@ == project_saves(changes@, use_after),
        r.1@ == project_deletes(changes@, use_after),
{
    let ghost cs = changes@;
    let mut saves: Vec<Project> = Vec::new();
    let mut deletes: Vec<ProjectId> = Vec::new();
    let mut i: usize = 0;
    while i < changes.len()
        invariant
            i <= changes.len(),
            cs == changes@,
            forall|k: int| 0 <= k < cs.len() ==> (#[trigger] cs[k]).before is Some || cs[k].after is Some,
            saves@ == project_saves(cs.subrange(0, i as int), use_after),
            deletes@ == project_deletes(cs.subrange(0, i as int), use_after),
        decreases changes.len() - i,
    {
        let change = &changes[i];
        proof {
            let next = cs.subrange(0, i + 1);
            assert(next.drop_last() == cs.subrange(0, i as int));
            assert(next.last() == cs[i as int]);
            assert(cs[i as int].before is Some || cs[i as int].after is Some);
        }
        let state = if use_after {
            copy_project(&change.after)
        } else {
            copy_project(&change.before)
        };
        match state {
            Some(p) => saves.push(p),
            None => {
                let id = match &change.before {
                    Some(p) => p.id,
                    None => match &change.after {
                        Some(p) => p.id,
                        None => {
                            assert(false);
                            return (saves, deletes);
                        },
                    },
                };
                deletes.push(id);
            },
        }
        i = i + 1;
    }
    proof {
        assert(cs.subrange(0, cs.len() as int) == cs);
    }
    (saves, deletes)
}

/// Splits tag changes into the tags to store and the identifiers to delete when
/// restoring one side of them.
pub fn tag_store_lists(changes: &Vec<TagChange>, use_after: bool) -> (r: (Vec<Tag>, Vec<TagId>))
    requires
        forall|i: int| 0 <= i < changes.len() ==> (#[trigger] changes@[i]).before is Some || changes@[i].after is Some,
    ensures
        r.0@ == tag_saves(changes@, use_after),
        r.1@ == tag_deletes(changes@, use_after),
{
    let ghost cs = changes@;
    let mut saves: Vec<Tag> = Vec::new();
    let mut deletes: Vec<TagId> = Vec::new();
    let mut i: usize = 0;
    while i < changes.len()
        invariant
            i <= changes.len(),
            cs == changes@,
            forall|k: int| 0 <= k < cs.len() ==> (#[trigger] cs[k]).before is Some || cs[k].after is Some,
            saves@ == tag_saves(cs.subrange(0, i as int), use_after),
            deletes@ == tag_deletes(cs.subrange(0, i as int), use_after),
        decreases changes.len() - i,
    {
        let change = &changes[i];
        proof {
            let next = cs.subrange(0, i + 1);
            assert(next.drop_last() == cs.subrange(0, i as int));
            assert(next.last() == cs[i as int]);
            assert(cs[i as int].before is Some || cs[i as int].after is Some);
        }
        let state = if use_after {
            copy_tag(&change.after)
        } else {
            copy_tag(&change.before)
        };
        match state {
            Some(t) => saves.push(t),
            None => {
                let id = match &change.before {
                    Some(t) => t.id,
                    None => match &change.after {
                        Some(t) => t.id,
                        None => {
                            assert(false);
                            return (saves, deletes);
                        },
                    },
                };
                deletes.push(id);
            },
        }
        i = i + 1;
    }
    proof {
        assert(cs.subrange(0, cs.len() as int) == cs);
    }
    (saves, deletes)
}

proof fn lemma_first_project_is(items: Seq<Project>, id: ProjectId, i: int)
    requires
        0 <= i < items.len(),
        items[i].id == id,
        forall|j: int| 0 <= j < i ==> items[j].id != id,
    ensures
        first_project(items, id) == i,
{
    let k = first_project(items, id);
    assert(0 <= k < items.len() && items[k].id == id && forall|j: int| 0 <= j < k ==> items[j].id != id) by {
        assert(0 <= i < items.len() && items[i].id == id && forall|j: int| 0 <= j < i ==> items[j].id != id);
    }
    if k < i {
        assert(items[k].id != id);
    } else if k > i {
        assert(items[i].id != id);
    }
}

proof fn lemma_first_project_found(items: Seq<Project>, id: ProjectId)
    requires
        has_project(items, id),
    ensures
        0 <= first_project(items, id) < items.len(),
        items[first_project(items, id)].id == id,
        forall|j: int| 0 <= j < first_project(items, id) ==> items[j].id != id,
{
    let w = choose|w: int| 0 <= w < items.len() && items[w].id == id;
    let p = |x: Project| x.id == id;
    lemma_first_match(items, p, w);
    let k = choose|k: int| 0 <= k < items.len() && p(items[k]) && forall|j: int| 0 <= j < k ==> !p(items[j]);
    lemma_first_project_is(items, id, k);
}

/// `items` is a state right after the change `c` was made or redone: a created
/// project is the last one and no other has its identifier, an edited project is the first
/// with its identifier, and a removed project's identifier is gone.
pub open spec fn project_shows_after(items: Seq<Project>, c: ProjectChange) -> bool {
    match (c.before, c.after) {
        (None, Some(x)) => items.len() > 0 && items.last() == x && !has_project(items.drop_last(), x.id),
        (Some(b), Some(x)) => b.id == x.id && has_project(items, x.id) && items[first_project(items, x.id)] == x,
        (Some(b), None) => !has_project(items, b.id),
        (None, None) => false,
    }
}

/// Redoing after an undo gives back the projects for a change of any kind: from a state
/// that shows the change's after side, undoing and then redoing the change ends
/// where it started.
pub proof fn lemma_project_redo_after_undo(items: Seq<Project>, c: ProjectChange)
    requires
        project_shows_after(items, c),
    ensures
        apply_project_changes(apply_project_changes(items, seq![c], false), seq![c], true) == items,
{
    let cs = seq![c];
    let undone = apply_project_change(items, c, false);
    assert(cs.drop_first() =~= Seq::<ProjectChange>::empty());
    assert(apply_project_changes(items, cs, false) == apply_project_changes(undone, cs.drop_first(), false));
    assert(apply_project_changes(undone, cs, true) == apply_project_changes(
        apply_project_change(undone, c, true),
        cs.drop_first(),
        true,
    ));
    let id = project_change_id(c);
    let pred = |x: Project| x.id != id;
    match (c.before, c.after) {
        (None, Some(x)) => {
            let rest = items.drop_last();
            assert(rest.push(x) =~= items);
            lemma_filter_push(rest, pred, x);
            assert forall|i: int| 0 <= i < rest.len() implies pred(rest[i]) by {
                if rest[i].id == id {
                    assert(has_project(rest, id));
                }
            }
            lemma_filter_keeps_all(rest, pred);
            assert(undone == rest);
        },
        (Some(b), Some(x)) => {
            lemma_first_project_found(items, id);
            let i = first_project(items, id);
            assert(undone == items.update(i, b));
            assert forall|j: int| 0 <= j < i implies undone[j].id != id by {
                assert(undone[j] == items[j]);
            }
            lemma_first_project_is(undone, id, i);
            assert(has_project(undone, id)) by {
                assert(undone[i].id == id);
            }
            assert(undone.update(i, x) =~= items);
        },
        (Some(b), None) => {
            assert(undone == items.push(b));
            lemma_filter_push(items, pred, b);
            assert forall|i: int| 0 <= i < items.len() implies pred(items[i]) by {
                if items[i].id == id {
                    assert(has_project(items, id));
                }
            }
            lemma_filter_keeps_all(items, pred);
            assert(has_project(undone, id)) by {
                assert(undone[items.len() as int].id == id);
            }
        },
        (None, None) => {},
    }
}

proof fn lemma_first_tag_is(items: Seq<Tag>, id: TagId, i: int)
    requires
        0 <= i < items.len(),
        items[i].id == id,
        forall|j: int| 0 <= j < i ==> items[j].id != id,
    ensures
        first_tag(items, id) == i,
{
    let k = first_tag(items, id);
    assert(0 <= k < items.len() && items[k].id == id && forall|j: int| 0 <= j < k ==> items[j].id != id) by {
        assert(0 <= i < items.len() && items[i].id == id && forall|j: int| 0 <= j < i ==> items[j].id != id);
    }
    if k < i {
        assert(items[k].id != id);
    } else if k > i {
        assert(items[i].id != id);
    }
}

proof fn lemma_first_tag_found(items: Seq<Tag>, id: TagId)
    requires
        has_tag(items, id),
    ensures
        0 <= first_tag(items, id) < items.len(),
        items[first_tag(items, id)].id == id,
        forall|j: int| 0 <= j < first_tag(items, id) ==> items[j].id != id,
{
    let w = choose|w: int| 0 <= w < items.len() && items[w].id == id;
    let p = |x: Tag| x.id == id;
    lemma_first_match(items, p, w);
    let k = choose|k: int| 0 <= k < items.len() && p(items[k]) && forall|j: int| 0 <= j < k ==> !p(items[j]);
    lemma_first_tag_is(items, id, k);
}

/// `items` is a state right after the change `c` was made or redone: a created
/// tag is the last one and no other has its identifier, an edited tag is the first
/// with its identifier, and a removed tag's identifier is gone.
pub open spec fn tag_shows_after(items: Seq<Tag>, c: TagChange) -> bool {
    match (c.before, c.after) {
        (None, Some(x)) => items.len() > 0 && items.last() == x && !has_tag(items.drop_last(), x.id),
        (Some(b), Some(x)) => b.id == x.id && has_tag(items, x.id) && items[first_tag(items, x.id)] == x,
        (Some(b), None) => !has_tag(items, b.id),
        (None, None) => false,
    }
}

/// Redoing after an undo gives back the tags for a change of any kind: from a state
/// that shows the change's after side, undoing and then redoing the change ends
/// where it started.
pub proof fn lemma_tag_redo_after_undo(items: Seq<Tag>, c: TagChange)
    requires
        tag_shows_after(items, c),
    ensures
        apply_tag_changes(apply_tag_changes(items, seq![c], false), seq![c], true) == items,
{
    let cs = seq![c];
    let undone = apply_tag_change(items, c, false);
    assert(cs.drop_first() =~= Seq::<TagChange>::empty());
    assert(apply_tag_changes(items, cs, false) == apply_tag_changes(undone, cs.drop_first(), false));
    assert(apply_tag_changes(undone, cs, true) == apply_tag_changes(
        apply_tag_change(undone, c, true),
        cs.drop_first(),
        true,
    ));
    let id = tag_change_id(c);
    let pred = |x: Tag| x.id != id;
    match (c.before, c.after) {
        (None, Some(x)) => {
            let rest = items.drop_last();
            assert(rest.push(x) =~= items);
            lemma_filter_push(rest, pred, x);
            assert forall|i: int| 0 <= i < rest.len() implies pred(rest[i]) by {
                if rest[i].id == id {
                    assert(has_tag(rest, id));
                }
            }
            lemma_filter_keeps_all(rest, pred);
            assert(undone == rest);
        },
        (Some(b), Some(x)) => {
            lemma_first_tag_found(items, id);
            let i = first_tag(items, id);
            assert(undone == items.update(i, b));
            assert forall|j: int| 0 <= j < i implies undone[j].id != id by {
                assert(undone[j] == items[j]);
            }
            lemma_first_tag_is(undone, id, i);
            assert(has_tag(undone, id)) by {
                assert(undone[i].id == id);
            }
            assert(undone.update(i, x) =~= items);
        },
        (Some(b), None) => {
            assert(undone == items.push(b));
            lemma_filter_push(items, pred, b);
            assert forall|i: int| 0 <= i < items.len() implies pred(items[i]) by {
                if items[i].id == id {
                    assert(has_tag(items, id));
                }
            }
            lemma_filter_keeps_all(items, pred);
            assert(has_tag(undone, id)) by {
                assert(undone[items.len() as int].id == id);
            }
        },
        (None, None) => {},
    }
}

} // verus!
