//! Deleting tasks and what belongs to them.

use crate::ai::{copy_option, opt_text};
use crate::number::{decimal, to_decimal};
use crate::path::{is_rooted, is_under, join, joined_path, lies_under, path_steps, rooted, steps_of};
use crate::search::{
    join as join_texts, joined, lemma_positions, lemma_positions_agree, lemma_positions_step,
    positions, replace_char, same, with_char_replaced,
};
use crate::tasks::{
    changed, law_other_tasks_stay, lemma_task_position, open_status, running_status, synced,
    task_position, unique_ids, without_task, TaskChange, TaskState, TaskStatus, TaskStore,
};
use crate::text::{blank, copy, is_blank, texts};
use crate::utils::{sanitize_filename, sanitized};
use vstd::prelude::*;

verus! {

/// Where what a task made lies: where it says, else where its settings say.
pub open spec fn output_path_of(t: TaskState) -> Option<Seq<char>> {
    if t.output_path matches Some(p) && !blank(p@) {
        Some(t.output_path->0@)
    } else {
        match t.cli_config {
            Some(cli) => match cli.output_name {
                Some(name) if !blank(name@) => Some(joined_path(cli.out@, sanitized(name@))),
                _ => None,
            },
            None => None,
        }
    }
}

/// Where what a task made lies.
pub fn task_output_path(task: &TaskState) -> (r: Option<String>)
    ensures
        match output_path_of(*task) {
            Some(p) => r matches Some(q) && q@ == p,
            None => r is None,
        },
{
    if let Some(p) = &task.output_path {
        if !is_blank(p.as_str()) {
            return Some(p.clone());
        }
    }
    match &task.cli_config {
        Some(cli) => match &cli.output_name {
            Some(name) => if is_blank(name.as_str()) {
                None
            } else {
                Some(join(cli.out.as_str(), sanitize_filename(name.as_str()).as_str()))
            },
            None => None,
        },
        None => None,
    }
}

/// What belongs to a task.
#[derive(Clone, Copy, Debug, PartialEq, Eq, Structural)]
pub enum Belonging {
    /// The table of voices for its book.
    Allocation,
    /// What it made.
    Output,
    /// Its book.
    Source,
}

/// The path by which what belongs to a task is found; that of a book only where it is not blank.
pub open spec fn belonging_path(t: TaskState, what: Belonging) -> Option<Seq<char>> {
    match what {
        Belonging::Allocation => opt_text(t.full_path),
        Belonging::Output => output_path_of(t),
        Belonging::Source => if t.full_path matches Some(p) && blank(p@) {
            None
        } else {
            opt_text(t.full_path)
        },
    }
}

/// The path by which what belongs to a task is found.
pub fn path_of_belonging(task: &TaskState, what: Belonging) -> (r: Option<String>)
    ensures
        opt_text(r) == belonging_path(*task, what),
{
    match what {
        Belonging::Allocation => copy_option(&task.full_path),
        Belonging::Output => task_output_path(task),
        Belonging::Source => match &task.full_path {
            Some(p) => if is_blank(p.as_str()) {
                None
            } else {
                Some(p.clone())
            },
            None => None,
        },
    }
}

/// A path with slashes for backslashes.
pub open spec fn slashed(path: Seq<char>) -> Seq<char> {
    with_char_replaced(path, '\\', '/')
}

/// Whether the path, with slashes, is among the paths.
pub open spec fn has_path(paths: Seq<Seq<char>>, path: Seq<char>) -> bool {
    exists|i: int| 0 <= i < paths.len() && slashed(#[trigger] paths[i]) == slashed(path)
}

/// The paths, each once.
pub open spec fn distinct(paths: Seq<Seq<char>>) -> Seq<Seq<char>>
    decreases paths.len(),
{
    if paths.len() == 0 {
        seq![]
    } else {
        let before = distinct(paths.drop_last());
        if has_path(before, paths.last()) {
            before
        } else {
            before.push(paths.last())
        }
    }
}

fn is_path_among(paths: &Vec<String>, path: &str) -> (b: bool)
    ensures
        b == has_path(texts(paths@), path@),
{
    let ghost views = texts(paths@);
    let wanted = replace_char(path, '\\', '/');
    let mut i: usize = 0;
    while i < paths.len()
        invariant
            i <= paths@.len(),
            views == texts(paths@),
            wanted@ == slashed(path@),
            forall|k: int| 0 <= k < i ==> slashed(#[trigger] views[k]) != wanted@,
        decreases paths@.len() - i,
    {
        assert(views[i as int] == paths@[i as int]@);
        if same(replace_char(paths[i].as_str(), '\\', '/').as_str(), wanted.as_str()) {
            return true;
        }
        i += 1;
    }
    false
}

/// The paths, each once, in the order in which they come first.
pub fn distinct_paths(paths: &Vec<String>) -> (r: Vec<String>)
    ensures
        texts(r@) == distinct(texts(paths@)),
{
    let ghost views = texts(paths@);
    let mut r: Vec<String> = Vec::new();
    let mut i: usize = 0;
    assert(views.take(0) =~= seq![]);
    assert(texts(r@) =~= seq![]);
    while i < paths.len()
        invariant
            i <= paths@.len(),
            views == texts(paths@),
            texts(r@) == distinct(views.take(i as int)),
        decreases paths@.len() - i,
    {
        let ghost before = texts(r@);
        proof {
            assert(views.take(i + 1).drop_last() =~= views.take(i as int));
            assert(views.take(i + 1).last() == views[i as int]);
        }
        if !is_path_among(&r, paths[i].as_str()) {
            r.push(paths[i].clone());
            assert(texts(r@) =~= before.push(views[i as int]));
        }
        i += 1;
    }
    assert(views.take(i as int) =~= views);
    r
}

/// No path is deleted twice, and none is left out.
pub proof fn law_distinct_paths_cover_all(paths: Seq<Seq<char>>)
    ensures
        forall|i: int, j: int|
            0 <= i < j < distinct(paths).len() ==> slashed(#[trigger] distinct(paths)[i])
                != slashed(#[trigger] distinct(paths)[j]),
        forall|i: int| 0 <= i < paths.len() ==> has_path(distinct(paths), #[trigger] paths[i]),
        forall|i: int|
            0 <= i < distinct(paths).len() ==> paths.contains(#[trigger] distinct(paths)[i]),
    decreases paths.len(),
{
    if paths.len() > 0 {
        let front = paths.drop_last();
        let before = distinct(front);
        let all = distinct(paths);
        law_distinct_paths_cover_all(front);
        assert forall|i: int, j: int| 0 <= i < j < all.len() implies slashed(#[trigger] all[i])
            != slashed(#[trigger] all[j]) by {
            assert(all[i] == before[i]);
            if j < before.len() {
                assert(all[j] == before[j]);
            }
        }
        assert forall|i: int| 0 <= i < paths.len() implies has_path(all, #[trigger] paths[i]) by {
            if i < front.len() {
                assert(paths[i] == front[i]);
                assert(has_path(before, front[i]));
                let k = choose|k: int|
                    0 <= k < before.len() && slashed(#[trigger] before[k]) == slashed(front[i]);
                assert(all[k] == before[k]);
            } else if has_path(before, paths.last()) {
                assert(all == before);
            } else {
                assert(all[before.len() as int] == paths.last());
            }
        }
        assert forall|i: int| 0 <= i < all.len() implies paths.contains(#[trigger] all[i]) by {
            if i < before.len() {
                assert(all[i] == before[i]);
                let k = front.index_of(before[i]);
                assert(paths[k] == front[k]);
            } else {
                assert(paths[paths.len() - 1] == all[i]);
            }
        }
    }
}

/// The paths by which what belongs to the tasks with the ids is found.
pub open spec fn belonging_paths(
    tasks: Seq<TaskState>,
    ids: Seq<Seq<char>>,
    what: Belonging,
) -> Seq<Seq<char>>
    decreases ids.len(),
{
    if ids.len() == 0 {
        seq![]
    } else {
        let before = belonging_paths(tasks, ids.drop_last(), what);
        match task_position(tasks, ids.last()) {
            Some(i) => match belonging_path(tasks[i], what) {
                Some(p) => before.push(p),
                None => before,
            },
            None => before,
        }
    }
}

/// The paths by which what belongs to the tasks with the ids is found, each once.
pub fn gather_paths(store: &TaskStore, ids: &Vec<String>, what: Belonging) -> (r: Vec<String>)
    ensures
        texts(r@) == distinct(belonging_paths(store@, texts(ids@), what)),
{
    let ghost views = texts(ids@);
    let mut paths: Vec<String> = Vec::new();
    let mut i: usize = 0;
    assert(views.take(0) =~= seq![]);
    assert(texts(paths@) =~= seq![]);
    while i < ids.len()
        invariant
            i <= ids@.len(),
            views == texts(ids@),
            texts(paths@) == belonging_paths(store@, views.take(i as int), what),
        decreases ids@.len() - i,
    {
        let ghost before = texts(paths@);
        proof {
            assert(views.take(i + 1).drop_last() =~= views.take(i as int));
            assert(views.take(i + 1).last() == ids@[i as int]@);
        }
        if let Some(t) = store.get(ids[i].as_str()) {
            if let Some(p) = path_of_belonging(t, what) {
                paths.push(p);
                assert(texts(paths@) =~= before.push(p@));
            }
        }
        i += 1;
    }
    assert(views.take(i as int) =~= views);
    distinct_paths(&paths)
}

/// A file of tables of voices: its path, and the path of the book in it.
#[derive(Debug)]
pub struct TableFile {
    pub path: String,
    pub book: String,
}

/// The path of a file, and that of the book in it.
pub type TableFileView = (Seq<char>, Seq<char>);

/// The files as values.
pub open spec fn table_file_views(files: Seq<TableFile>) -> Seq<TableFileView> {
    Seq::new(files.len(), |i: int| (files[i].path@, files[i].book@))
}

/// Whether one of the paths is the path.
pub open spec fn among(paths: Seq<Seq<char>>, path: Seq<char>) -> bool {
    exists|i: int| 0 <= i < paths.len() && same_path(#[trigger] paths[i], path)
}

/// The files with a table for a book: the one with the book's own name first, where it is there,
/// then those in which the book stands.
pub open spec fn table_files(
    first: Option<Seq<char>>,
    files: Seq<TableFileView>,
    book: Seq<char>,
) -> Seq<Seq<char>>
    decreases files.len(),
{
    if files.len() == 0 {
        match first {
            Some(p) => seq![p],
            None => seq![],
        }
    } else {
        let before = table_files(first, files.drop_last(), book);
        let (path, of) = files.last();
        if !among(before, path) && slashed(of) == slashed(book) {
            before.push(path)
        } else {
            before
        }
    }
}

fn is_among(paths: &Vec<String>, path: &str) -> (b: bool)
    ensures
        b == among(texts(paths@), path@),
{
    let ghost views = texts(paths@);
    let mut i: usize = 0;
    while i < paths.len()
        invariant
            i <= paths@.len(),
            views == texts(paths@),
            forall|k: int| 0 <= k < i ==> !same_path(#[trigger] views[k], path@),
        decreases paths@.len() - i,
    {
        assert(views[i as int] == paths@[i as int]@);
        if is_same_path(paths[i].as_str(), path) {
            return true;
        }
        i += 1;
    }
    false
}

/// The files with a table for a book; `first` is the path of the one with the book's own name,
/// where it is there.
pub fn find_allocation_file_paths(
    first: Option<String>,
    files: &Vec<TableFile>,
    book: &str,
) -> (r: Vec<String>)
    ensures
        texts(r@) == table_files(opt_text(first), table_file_views(files@), book@),
{
    let ghost views = table_file_views(files@);
    let ghost start = opt_text(first);
    let mut r: Vec<String> = Vec::new();
    if let Some(p) = first {
        r.push(p);
    }
    let wanted = replace_char(book, '\\', '/');
    let mut i: usize = 0;
    assert(views.take(0) =~= seq![]);
    assert(texts(r@) =~= table_files(start, views.take(0), book@));
    while i < files.len()
        invariant
            i <= files@.len(),
            views == table_file_views(files@),
            wanted@ == slashed(book@),
            texts(r@) == table_files(start, views.take(i as int), book@),
        decreases files@.len() - i,
    {
        let ghost before = texts(r@);
        let file = &files[i];
        proof {
            assert(views.take(i + 1).drop_last() =~= views.take(i as int));
            assert(views.take(i + 1).last() == (file.path@, file.book@));
        }
        if !is_among(&r, file.path.as_str()) && same(
            replace_char(file.book.as_str(), '\\', '/').as_str(),
            wanted.as_str(),
        ) {
            r.push(file.path.clone());
            assert(texts(r@) =~= before.push(file.path@));
        }
        i += 1;
    }
    assert(views.take(i as int) =~= views);
    r
}

/// The file that the table of a book is saved in: the first with a table for it, else the one with
/// the book's own name.
pub fn table_file_to_save(found: &Vec<String>, own: &str) -> (r: String)
    ensures
        r@ == if found@.len() > 0 {
            found@[0]@
        } else {
            own@
        },
{
    if found.len() > 0 {
        found[0].clone()
    } else {
        copy(own)
    }
}

/// The paths that are not the path.
pub open spec fn others_than(paths: Seq<Seq<char>>, path: Seq<char>) -> Seq<Seq<char>>
    decreases paths.len(),
{
    if paths.len() == 0 {
        seq![]
    } else {
        let before = others_than(paths.drop_last(), path);
        if same_path(paths.last(), path) {
            before
        } else {
            before.push(paths.last())
        }
    }
}

/// The files with a table for a book that are left over once it is saved in `kept`.
pub fn leftover_table_files(found: &Vec<String>, kept: &str) -> (r: Vec<String>)
    ensures
        texts(r@) == others_than(texts(found@), kept@),
{
    let ghost views = texts(found@);
    let mut r: Vec<String> = Vec::new();
    let mut i: usize = 0;
    assert(views.take(0) =~= seq![]);
    assert(texts(r@) =~= seq![]);
    while i < found.len()
        invariant
            i <= found@.len(),
            views == texts(found@),
            texts(r@) == others_than(views.take(i as int), kept@),
        decreases found@.len() - i,
    {
        let ghost before = texts(r@);
        proof {
            assert(views.take(i + 1).drop_last() =~= views.take(i as int));
            assert(views.take(i + 1).last() == found@[i as int]@);
        }
        if !is_same_path(found[i].as_str(), kept) {
            r.push(found[i].clone());
            assert(texts(r@) =~= before.push(found@[i as int]@));
        }
        i += 1;
    }
    assert(views.take(i as int) =~= views);
    r
}

/// Whether something may be deleted.
#[derive(Clone, Copy, Debug, PartialEq, Eq, Structural)]
pub enum Deletion {
    /// There is nothing to delete.
    Nothing,
    /// It lies where nothing may be deleted.
    Refused,
    /// It may be deleted.
    Allowed,
}

/// Whether two paths have the same steps from the same start.
pub open spec fn same_path(a: Seq<char>, b: Seq<char>) -> bool {
    rooted(a) == rooted(b) && steps_of(a) == steps_of(b)
}

/// Whether two paths have the same steps from the same start.
pub fn is_same_path(a: &str, b: &str) -> (r: bool)
    ensures
        r == same_path(a@, b@),
{
    let p = path_steps(a);
    let q = path_steps(b);
    let ghost s = texts(p@);
    let ghost t = texts(q@);
    assert(s.len() == p@.len() && t.len() == q@.len());
    if is_rooted(a) != is_rooted(b) || p.len() != q.len() {
        return false;
    }
    let mut i: usize = 0;
    while i < p.len()
        invariant
            i <= p@.len() == q@.len(),
            s == texts(p@) && s == steps_of(a@),
            t == texts(q@) && t == steps_of(b@),
            forall|k: int| 0 <= k < i ==> s[k] == t[k],
        decreases p@.len() - i,
    {
        if !same(p[i].as_str(), q[i].as_str()) {
            assert(s[i as int] != t[i as int]);
            return false;
        }
        i += 1;
    }
    assert(s =~= t);
    true
}

/// Whether the output at a path may be deleted: it and the root are there, and it lies below the
/// root and is not the root. The paths are the real ones, where there is something at them.
pub fn output_deletion(candidate: Option<&str>, root: Option<&str>) -> (r: Deletion)
    ensures
        r == match (candidate, root) {
            (Some(c), Some(d)) => if lies_under(c@, d@) && !same_path(c@, d@) {
                Deletion::Allowed
            } else {
                Deletion::Refused
            },
            _ => Deletion::Nothing,
        },
{
    match candidate {
        None => Deletion::Nothing,
        Some(c) => match root {
            None => Deletion::Nothing,
            Some(d) => if is_same_path(c, d) || !is_under(c, d) {
                Deletion::Refused
            } else {
                Deletion::Allowed
            },
        },
    }
}

/// Whether the book at a path may be deleted: it is a file, below the root of books and not below
/// that of outputs. The paths are the real ones, where there is something at them.
pub fn source_deletion(
    candidate: Option<&str>,
    is_file: bool,
    book_root: Option<&str>,
    output_root: Option<&str>,
) -> (r: Deletion)
    ensures
        r == match (candidate, book_root) {
            (Some(c), Some(b)) => if !is_file {
                Deletion::Nothing
            } else if !lies_under(c@, b@) {
                Deletion::Refused
            } else if output_root matches Some(o) && lies_under(c@, o@) {
                Deletion::Nothing
            } else {
                Deletion::Allowed
            },
            _ => Deletion::Nothing,
        },
{
    let c = match candidate {
        None => return Deletion::Nothing,
        Some(c) => c,
    };
    if !is_file {
        return Deletion::Nothing;
    }
    let b = match book_root {
        None => return Deletion::Nothing,
        Some(b) => b,
    };
    if !is_under(c, b) {
        return Deletion::Refused;
    }
    if let Some(o) = output_root {
        if is_under(c, o) {
            return Deletion::Nothing;
        }
    }
    Deletion::Allowed
}

/// A task that is about to be deleted: cancelled where it was waiting or under way.
pub open spec fn discarded(t: TaskState, now: u64) -> TaskState {
    if open_status(t.status) {
        synced(
            TaskState { status: TaskStatus::Cancelled, end_time: Some(now), eta: None, ..t },
        )
    } else {
        t
    }
}

/// The tasks after those with the ids are about to be deleted.
pub open spec fn with_discarded(
    tasks: Seq<TaskState>,
    ids: Seq<Seq<char>>,
    now: u64,
) -> Seq<TaskState>
    decreases ids.len(),
{
    if ids.len() == 0 {
        tasks
    } else {
        let before = with_discarded(tasks, ids.drop_last(), now);
        match task_position(before, ids.last()) {
            Some(i) => before.update(i, discarded(before[i], now)),
            None => before,
        }
    }
}

/// Whether one of the tasks with the ids was under way or paused.
pub open spec fn any_running(tasks: Seq<TaskState>, ids: Seq<Seq<char>>, now: u64) -> bool
    decreases ids.len(),
{
    if ids.len() == 0 {
        false
    } else {
        let before = with_discarded(tasks, ids.drop_last(), now);
        any_running(tasks, ids.drop_last(), now) || (task_position(before, ids.last()) matches Some(
            i,
        ) && running_status(before[i].status))
    }
}

/// Cancels the tasks with the ids where they are waiting or under way; says whether one was under
/// way or paused.
pub fn discard_tasks(store: &mut TaskStore, ids: &Vec<String>, now: u64) -> (r: bool)
    ensures
        final(store)@ == with_discarded(old(store)@, texts(ids@), now),
        r == any_running(old(store)@, texts(ids@), now),
{
    let ghost first = store@;
    let ghost views = texts(ids@);
    let mut running = false;
    let mut i: usize = 0;
    assert(views.take(0) =~= seq![]);
    while i < ids.len()
        invariant
            i <= ids@.len(),
            views == texts(ids@),
            store@ == with_discarded(first, views.take(i as int), now),
            running == any_running(first, views.take(i as int), now),
        decreases ids@.len() - i,
    {
        let ghost before = store@;
        let id = ids[i].as_str();
        proof {
            assert(views.take(i + 1).drop_last() =~= views.take(i as int));
            assert(views.take(i + 1).last() == id@);
        }
        if let Some(t) = store.get(id) {
            if t.status == TaskStatus::Processing || t.status == TaskStatus::Paused {
                running = true;
            }
        }
        let change = TaskChange::Discard(now);
        store.change(id, &change);
        proof {
            lemma_task_position(before, id@);
            match task_position(before, id@) {
                Some(k) => {
                    assert(store@[k] == discarded(before[k], now));
                    assert(store@ =~= before.update(k, discarded(before[k], now)));
                },
                None => {},
            }
        }
        i += 1;
    }
    assert(views.take(i as int) =~= views);
    running
}

/// The tasks without those with the ids.
pub open spec fn without_ids(tasks: Seq<TaskState>, ids: Seq<Seq<char>>) -> Seq<TaskState>
    decreases ids.len(),
{
    if ids.len() == 0 {
        tasks
    } else {
        without_task(without_ids(tasks, ids.drop_last()), ids.last())
    }
}

/// Tasks that are deleted are not found any more, and all others are kept.
pub proof fn law_deleted_tasks_are_gone(tasks: Seq<TaskState>, ids: Seq<Seq<char>>)
    requires
        unique_ids(tasks),
    ensures
        unique_ids(without_ids(tasks, ids)),
        forall|i: int|
            0 <= i < ids.len() ==> task_position(without_ids(tasks, ids), #[trigger] ids[i]) is None,
        forall|t: TaskState|
            tasks.contains(t) && !ids.contains(t.id@) ==> #[trigger] without_ids(
                tasks,
                ids,
            ).contains(t),
        forall|t: TaskState| #[trigger]
            without_ids(tasks, ids).contains(t) ==> tasks.contains(t),
    decreases ids.len(),
{
    if ids.len() > 0 {
        let front = ids.drop_last();
        let id = ids.last();
        let before = without_ids(tasks, front);
        let after = without_ids(tasks, ids);
        law_deleted_tasks_are_gone(tasks, front);
        lemma_task_position(before, id);
        let at = task_position(before, id);
        assert forall|k: int| 0 <= k < after.len() implies before.contains(#[trigger] after[k]) by {
            match at {
                Some(i) => {
                    assert(after[k] == before[if k < i {
                        k
                    } else {
                        k + 1
                    }]);
                },
                None => {},
            }
        }
        assert forall|a: int, b: int| 0 <= a < b < after.len() implies (#[trigger] after[a]).id@
            != (#[trigger] after[b]).id@ by {
            match at {
                Some(i) => {
                    let x = if a < i {
                        a
                    } else {
                        a + 1
                    };
                    let y = if b < i {
                        b
                    } else {
                        b + 1
                    };
                    assert(after[a] == before[x] && after[b] == before[y]);
                },
                None => {},
            }
        }
        assert forall|i: int| 0 <= i < ids.len() implies task_position(
            after,
            #[trigger] ids[i],
        ) is None by {
            lemma_task_position(after, ids[i]);
            lemma_task_position(before, ids[i]);
            if let Some(k) = task_position(after, ids[i]) {
                let j = before.index_of(after[k]);
                assert(before[j].id@ == ids[i]);
                if i < front.len() {
                    assert(front[i] == ids[i]);
                } else {
                    match at {
                        Some(p) => {
                            let x = if k < p {
                                k
                            } else {
                                k + 1
                            };
                            assert(after[k] == before[x]);
                            if x < p {
                                assert(before[x].id@ != before[p].id@);
                            } else {
                                assert(before[p].id@ != before[x].id@);
                            }
                        },
                        None => {},
                    }
                }
            }
        }
        assert forall|t: TaskState| tasks.contains(t) && !ids.contains(t.id@) implies #[trigger] after
            .contains(t) by {
            assert(!front.contains(t.id@)) by {
                if front.contains(t.id@) {
                    let k = front.index_of(t.id@);
                    assert(ids[k] == t.id@);
                }
            }
            assert(before.contains(t));
            let j = before.index_of(t);
            assert(ids[ids.len() - 1] == id);
            if let Some(p) = at {
                assert(j != p);
                assert(after[if j < p {
                    j
                } else {
                    j - 1
                }] == t);
            }
        }
        assert forall|t: TaskState| #[trigger] after.contains(t) implies tasks.contains(t) by {
            let k = after.index_of(t);
            assert(before.contains(after[k]));
        }
    }
}

/// The ids by which a task was removed, in order.
pub open spec fn removed_ids(tasks: Seq<TaskState>, ids: Seq<Seq<char>>) -> Seq<Seq<char>>
    decreases ids.len(),
{
    if ids.len() == 0 {
        seq![]
    } else {
        let before = removed_ids(tasks, ids.drop_last());
        if task_position(without_ids(tasks, ids.drop_last()), ids.last()) is Some {
            before.push(ids.last())
        } else {
            before
        }
    }
}

/// Removes the tasks with the ids; gives the ids by which one was removed.
pub fn remove_tasks(store: &mut TaskStore, ids: &Vec<String>) -> (r: Vec<String>)
    ensures
        final(store)@ == without_ids(old(store)@, texts(ids@)),
        texts(r@) == removed_ids(old(store)@, texts(ids@)),
{
    let ghost first = store@;
    let ghost views = texts(ids@);
    let mut r: Vec<String> = Vec::new();
    let mut i: usize = 0;
    assert(views.take(0) =~= seq![]);
    assert(texts(r@) =~= seq![]);
    while i < ids.len()
        invariant
            i <= ids@.len(),
            views == texts(ids@),
            store@ == without_ids(first, views.take(i as int)),
            texts(r@) == removed_ids(first, views.take(i as int)),
        decreases ids@.len() - i,
    {
        let ghost before = texts(r@);
        let id = ids[i].as_str();
        proof {
            assert(views.take(i + 1).drop_last() =~= views.take(i as int));
            assert(views.take(i + 1).last() == id@);
        }
        if store.remove(id) {
            r.push(copy(id));
            assert(texts(r@) =~= before.push(id@));
        }
        i += 1;
    }
    assert(views.take(i as int) =~= views);
    r
}

/// What was deleted, and what could not be.
#[derive(Clone, Copy, Debug)]
pub struct DeletionCounts {
    pub tasks: usize,
    pub allocations: usize,
    pub outputs: usize,
    pub sources: usize,
    pub failed: usize,
}

/// A number between two texts.
pub open spec fn counted_text(before: Seq<char>, n: nat, after: Seq<char>) -> Seq<char> {
    before + decimal(n) + after
}

/// The parts of the message about a deletion.
pub open spec fn deletion_parts(
    c: DeletionCounts,
    allocations: bool,
    outputs: bool,
    sources: bool,
) -> Seq<Seq<char>> {
    let first = seq![counted_text("已删除 "@, c.tasks as nat, " 个任务记录"@)];
    let second = if allocations {
        first.push(counted_text(""@, c.allocations as nat, " 张分配表"@))
    } else {
        first
    };
    let third = if outputs {
        second.push(counted_text(""@, c.outputs as nat, " 个输出路径"@))
    } else {
        second
    };
    let fourth = if sources {
        third.push(counted_text(""@, c.sources as nat, " 个源文件"@))
    } else {
        third
    };
    if (allocations || outputs || sources) && c.failed > 0 {
        fourth.push(counted_text(""@, c.failed as nat, " 项删除失败"@))
    } else {
        fourth
    }
}

fn push_part(parts: &mut Vec<String>, before: &str, n: usize, after: &str)
    ensures
        texts(final(parts)@) == texts(old(parts)@).push(
            counted_text(before@, n as nat, after@),
        ),
{
    let ghost first = texts(parts@);
    let mut text = copy(before);
    text.append(to_decimal(n as u64).as_str());
    text.append(after);
    parts.push(text);
    assert(texts(parts@) =~= first.push(text@));
}

/// The message about a deletion.
pub fn deletion_message(
    counts: DeletionCounts,
    allocations: bool,
    outputs: bool,
    sources: bool,
) -> (r: String)
    ensures
        r@ == joined(deletion_parts(counts, allocations, outputs, sources), "，"@),
{
    let mut parts: Vec<String> = Vec::new();
    push_part(&mut parts, "已删除 ", counts.tasks, " 个任务记录");
    assert(texts(parts@) =~= seq![counted_text(
        "已删除 "@,
        counts.tasks as nat,
        " 个任务记录"@,
    )]);
    if allocations {
        push_part(&mut parts, "", counts.allocations, " 张分配表");
    }
    if outputs {
        push_part(&mut parts, "", counts.outputs, " 个输出路径");
    }
    if sources {
        push_part(&mut parts, "", counts.sources, " 个源文件");
    }
    if (allocations || outputs || sources) && counts.failed > 0 {
        push_part(&mut parts, "", counts.failed, " 项删除失败");
    }
    join_texts(&parts, "，")
}

/// What a task made lies where it says; where it says nothing, under its name in the directory that
/// its settings give; and nowhere, where they give no name.
pub proof fn law_outputs_lie_where_tasks_say(t: TaskState)
    ensures
        t.output_path matches Some(p) ==> !blank(p@) ==> output_path_of(t) == Some(p@),
        (t.output_path is None || blank(t.output_path->0@)) ==> {
            &&& t.cli_config is None ==> output_path_of(t) is None
            &&& t.cli_config matches Some(cli) ==> {
                &&& cli.output_name is None ==> output_path_of(t) is None
                &&& cli.output_name matches Some(n) ==> if blank(n@) {
                    output_path_of(t) is None
                } else {
                    output_path_of(t) == Some(joined_path(cli.out@, sanitized(n@)))
                }
            }
        },
{
}

/// The table of voices and the book of a task are found by the path of its book, but no book is
/// found by a blank path.
pub proof fn law_belongings_are_found_by_the_book(t: TaskState)
    ensures
        belonging_path(t, Belonging::Output) == output_path_of(t),
        t.full_path is None ==> belonging_path(t, Belonging::Allocation) is None && belonging_path(
            t,
            Belonging::Source,
        ) is None,
        t.full_path matches Some(p) ==> {
            &&& belonging_path(t, Belonging::Allocation) == Some(p@)
            &&& belonging_path(t, Belonging::Source) is Some <==> !blank(p@)
            &&& !blank(p@) ==> belonging_path(t, Belonging::Source) == Some(p@)
        },
{
}

/// A path is compared with slashes for its backslashes, and with nothing else changed.
pub proof fn law_backslashes_count_as_slashes(a: Seq<char>, b: Seq<char>)
    ensures
        !slashed(a).contains('\\'),
        slashed(slashed(a)) == slashed(a),
        slashed(a + b) == slashed(a) + slashed(b),
        slashed(a + seq!['\\'] + b) == slashed(a + seq!['/'] + b),
        !a.contains('\\') ==> slashed(a) == a,
        slashed(a) == slashed(b) <==> a.len() == b.len() && forall|i: int|
            0 <= i < a.len() ==> #[trigger] a[i] == b[i] || ((a[i] == '/' || a[i] == '\\') && (b[i]
                == '/' || b[i] == '\\')),
{
    assert(slashed(slashed(a)) =~= slashed(a));
    assert(slashed(a + b) =~= slashed(a) + slashed(b));
    assert(slashed(a + seq!['\\'] + b) =~= slashed(a + seq!['/'] + b));
    if !a.contains('\\') {
        assert(slashed(a) =~= a);
    }
    if slashed(a) == slashed(b) {
        assert(a.len() == slashed(a).len() && b.len() == slashed(b).len());
        assert forall|i: int| 0 <= i < a.len() implies #[trigger] a[i] == b[i] || ((a[i] == '/'
            || a[i] == '\\') && (b[i] == '/' || b[i] == '\\')) by {
            assert(slashed(a)[i] == slashed(b)[i]);
        }
    } else if a.len() == b.len() && forall|i: int|
        0 <= i < a.len() ==> #[trigger] a[i] == b[i] || ((a[i] == '/' || a[i] == '\\') && (b[i]
            == '/' || b[i] == '\\')) {
        assert(slashed(a) =~= slashed(b));
    }
}

/// Of the paths that are the same but for their slashes, the first is kept, and the order stays.
pub proof fn law_first_paths_are_kept(paths: Seq<Seq<char>>)
    ensures
        distinct(paths) == positions(
            paths.len(),
            |i: int| forall|j: int| 0 <= j < i ==> slashed(#[trigger] paths[j]) != slashed(paths[i]),
        ).map_values(|i: int| paths[i]),
    decreases paths.len(),
{
    let fresh = |i: int|
        forall|j: int| 0 <= j < i ==> slashed(#[trigger] paths[j]) != slashed(paths[i]);
    let at = |i: int| paths[i];
    if paths.len() == 0 {
        lemma_positions(0, fresh);
        assert(positions(0, fresh).len() == 0) by {
            if positions(0, fresh).len() > 0 {
                assert(0 <= positions(0, fresh)[0] < 0);
            }
        }
        assert(positions(0, fresh).map_values(at) =~= seq![]);
    } else {
        let front = paths.drop_last();
        let n = front.len();
        let fresh_front = |i: int|
            forall|j: int| 0 <= j < i ==> slashed(#[trigger] front[j]) != slashed(front[i]);
        law_first_paths_are_kept(front);
        assert forall|i: int| 0 <= i < n implies #[trigger] fresh(i) == fresh_front(i) by {
            assert(forall|j: int| 0 <= j <= i ==> #[trigger] paths[j] == front[j]);
            if fresh(i) {
                assert forall|j: int| 0 <= j < i implies slashed(#[trigger] front[j]) != slashed(
                    front[i],
                ) by {
                    assert(paths[j] == front[j]);
                }
            }
        }
        lemma_positions_agree(n, fresh, fresh_front);
        lemma_positions_step(n, fresh);
        lemma_positions(n, fresh);
        assert(positions(n, fresh).map_values(at) =~= positions(n, fresh_front).map_values(
            |i: int| front[i],
        ));
        let before = distinct(front);
        law_distinct_paths_cover_all(front);
        assert(has_path(before, paths.last()) == !fresh(n as int)) by {
            if has_path(before, paths.last()) {
                let k = choose|k: int|
                    0 <= k < before.len() && slashed(#[trigger] before[k]) == slashed(paths.last());
                assert(front.contains(before[k]));
                let j = front.index_of(before[k]);
                assert(paths[j] == front[j]);
            } else {
                assert forall|j: int| 0 <= j < n implies slashed(#[trigger] paths[j]) != slashed(
                    paths[n as int],
                ) by {
                    assert(paths[j] == front[j]);
                    assert(has_path(before, front[j]));
                    let k = choose|k: int|
                        0 <= k < before.len() && slashed(#[trigger] before[k]) == slashed(front[j]);
                    assert(slashed(before[k]) == slashed(front[j]));
                }
            }
        }
        assert(positions(n, fresh).push(n as int).map_values(at) =~= positions(
            n,
            fresh,
        ).map_values(at).push(paths.last()));
    }
}

/// What belongs to every task that has one of the ids is found, nothing else is, and that of the
/// ids that come first is found first.
pub proof fn law_all_belongings_are_found(
    tasks: Seq<TaskState>,
    a: Seq<Seq<char>>,
    b: Seq<Seq<char>>,
    what: Belonging,
    k: int,
)
    requires
        unique_ids(tasks),
    ensures
        belonging_paths(tasks, a + b, what) == belonging_paths(tasks, a, what) + belonging_paths(
            tasks,
            b,
            what,
        ),
        0 <= k < tasks.len() ==> belonging_paths(tasks, seq![tasks[k].id@], what)
            == match belonging_path(tasks[k], what) {
            Some(p) => seq![p],
            None => seq![],
        },
        (forall|i: int, j: int|
            0 <= i < tasks.len() && 0 <= j < a.len() ==> (#[trigger] tasks[i]).id@
                != #[trigger] a[j]) ==> belonging_paths(tasks, a, what).len() == 0,
        belonging_paths(tasks, seq![], what).len() == 0,
    decreases a.len() + b.len(),
{
    if b.len() > 0 {
        law_all_belongings_are_found(tasks, a, b.drop_last(), what, k);
        assert((a + b).drop_last() =~= a + b.drop_last());
        assert((a + b).last() == b.last());
    } else {
        assert(a + b =~= a);
        assert(belonging_paths(tasks, b, what) =~= seq![]);
        if a.len() > 0 {
            law_all_belongings_are_found(tasks, a.drop_last(), b, what, k);
        }
    }
    if a.len() > 0 {
        lemma_task_position(tasks, a.last());
        if forall|i: int, j: int|
            0 <= i < tasks.len() && 0 <= j < a.len() ==> (#[trigger] tasks[i]).id@
                != #[trigger] a[j] {
            lemma_no_belongings(tasks, a, what);
        }
    }
    if 0 <= k < tasks.len() {
        let id = tasks[k].id@;
        let one = seq![id];
        lemma_task_position(tasks, id);
        assert(one.drop_last() =~= seq![]);
        assert(one.last() == id);
        if let Some(i) = task_position(tasks, id) {
            if i < k {
                assert(tasks[i].id@ != tasks[k].id@);
            } else if k < i {
                assert(tasks[k].id@ != tasks[i].id@);
            }
        }
        assert(belonging_paths(tasks, one.drop_last(), what) =~= seq![]);
    }
}

proof fn lemma_no_belongings(tasks: Seq<TaskState>, ids: Seq<Seq<char>>, what: Belonging)
    requires
        forall|i: int, j: int|
            0 <= i < tasks.len() && 0 <= j < ids.len() ==> (#[trigger] tasks[i]).id@
                != #[trigger] ids[j],
    ensures
        belonging_paths(tasks, ids, what).len() == 0,
    decreases ids.len(),
{
    if ids.len() > 0 {
        let front = ids.drop_last();
        assert forall|i: int, j: int|
            0 <= i < tasks.len() && 0 <= j < front.len() implies (#[trigger] tasks[i]).id@
            != #[trigger] front[j] by {
            assert(front[j] == ids[j]);
        }
        lemma_no_belongings(tasks, front, what);
        lemma_task_position(tasks, ids.last());
    }
}

/// The file with the book's own name comes first; every file in which the book stands is found, no
/// file twice, and no other file.
pub proof fn law_all_tables_of_a_book_are_found(
    first: Option<Seq<char>>,
    files: Seq<TableFileView>,
    book: Seq<char>,
)
    ensures
        ({
            let found = table_files(first, files, book);
            &&& first matches Some(p) ==> found.len() > 0 && found[0] == p
            &&& forall|i: int|
                0 <= i < files.len() && slashed((#[trigger] files[i]).1) == slashed(book)
                    ==> exists|k: int|
                    0 <= k < found.len() && same_path(#[trigger] found[k], files[i].0)
            &&& forall|k: int|
                0 <= k < found.len() && (first is None || k > 0) ==> exists|i: int|
                    0 <= i < files.len() && (#[trigger] files[i]).0 == #[trigger] found[k]
                        && slashed(files[i].1) == slashed(book)
            &&& forall|j: int, k: int|
                0 <= j < k < found.len() ==> !same_path(#[trigger] found[j], #[trigger] found[k])
        }),
    decreases files.len(),
{
    let found = table_files(first, files, book);
    if files.len() > 0 {
        let front = files.drop_last();
        let before = table_files(first, front, book);
        let last = files.last();
        law_all_tables_of_a_book_are_found(first, front, book);
        assert(forall|k: int| 0 <= k < before.len() ==> #[trigger] found[k] == before[k]);
        assert forall|i: int|
            0 <= i < files.len() && slashed((#[trigger] files[i]).1) == slashed(book) implies exists|
            k: int,
        |
            0 <= k < found.len() && same_path(#[trigger] found[k], files[i].0) by {
            if i < front.len() {
                assert(front[i] == files[i]);
                let k = choose|k: int|
                    0 <= k < before.len() && same_path(#[trigger] before[k], front[i].0);
                assert(found[k] == before[k]);
            } else if among(before, last.0) {
                let k = choose|k: int|
                    0 <= k < before.len() && same_path(#[trigger] before[k], last.0);
                assert(found[k] == before[k]);
            } else {
                assert(found[before.len() as int] == last.0);
            }
        }
        assert forall|k: int| 0 <= k < found.len() && (first is None || k > 0) implies exists|i: int|
            0 <= i < files.len() && (#[trigger] files[i]).0 == #[trigger] found[k] && slashed(
                files[i].1,
            ) == slashed(book) by {
            if k < before.len() {
                let i = choose|i: int|
                    0 <= i < front.len() && (#[trigger] front[i]).0 == before[k] && slashed(
                        front[i].1,
                    ) == slashed(book);
                assert(files[i] == front[i]);
            } else {
                assert(files[files.len() - 1] == last);
            }
        }
        assert forall|j: int, k: int| 0 <= j < k < found.len() implies !same_path(
            #[trigger] found[j],
            #[trigger] found[k],
        ) by {
            assert(found[j] == before[j]);
            if k < before.len() {
                assert(found[k] == before[k]);
            } else {
                assert(!among(before, last.0));
            }
        }
    }
}

/// All files but the one that the table is kept in are left over, in their order.
pub proof fn law_other_files_are_left_over(paths: Seq<Seq<char>>, path: Seq<char>)
    ensures
        others_than(paths, path) == paths.filter(|p: Seq<char>| !same_path(p, path)),
    decreases paths.len(),
{
    reveal(Seq::filter);
    if paths.len() > 0 {
        law_other_files_are_left_over(paths.drop_last(), path);
    }
}

/// Two paths are the same where each lies under the other, the empty path aside.
pub proof fn law_same_paths_lie_under_each_other(a: Seq<char>, b: Seq<char>)
    ensures
        same_path(a, a),
        same_path(a, b) == same_path(b, a),
        a.len() > 0 && b.len() > 0 ==> (same_path(a, b) <==> lies_under(a, b) && lies_under(b, a)),
{
    if steps_of(a).is_prefix_of(steps_of(b)) && steps_of(b).is_prefix_of(steps_of(a)) {
        assert(steps_of(a) =~= steps_of(b));
    }
}

/// A task that is waiting, under way or paused is cancelled, and ends, before it is deleted; any
/// other stays as it is; and none changes its id, its book or what it made.
pub proof fn law_discarded_tasks_are_cancelled(t: TaskState, now: u64)
    ensures
        changed(t, TaskChange::Discard(now), discarded(t, now)),
        ({
            let after = discarded(t, now);
            let open = t.status == TaskStatus::Pending || t.status == TaskStatus::Processing
                || t.status == TaskStatus::Paused;
            &&& after.id == t.id
            &&& after.full_path == t.full_path
            &&& after.output_path == t.output_path
            &&& after.current == t.current
            &&& after.start_time == t.start_time
            &&& after.error_msg == t.error_msg
            &&& after.cli_config == t.cli_config
            &&& !open ==> after == t
            &&& open ==> after.status == TaskStatus::Cancelled && after.end_time == Some(now)
                && after.eta is None
        }),
{
}

/// Each task with one of the ids is discarded, once, and no other task changes.
pub proof fn law_listed_tasks_are_discarded(
    tasks: Seq<TaskState>,
    ids: Seq<Seq<char>>,
    now: u64,
    k: int,
)
    requires
        unique_ids(tasks),
    ensures
        with_discarded(tasks, ids, now).len() == tasks.len(),
        unique_ids(with_discarded(tasks, ids, now)),
        0 <= k < tasks.len() ==> with_discarded(tasks, ids, now)[k] == if ids.contains(
            tasks[k].id@,
        ) {
            discarded(tasks[k], now)
        } else {
            tasks[k]
        },
    decreases ids.len(),
{
    if ids.len() > 0 {
        let front = ids.drop_last();
        let before = with_discarded(tasks, front, now);
        let after = with_discarded(tasks, ids, now);
        law_listed_tasks_are_discarded(tasks, front, now, k);
        lemma_task_position(before, ids.last());
        assert forall|i: int, j: int| 0 <= i < j < after.len() implies (#[trigger] after[i]).id@
            != (#[trigger] after[j]).id@ by {
            assert(before[i].id@ != before[j].id@);
        }
        if 0 <= k < tasks.len() {
            let id = tasks[k].id@;
            assert(before[k].id@ == id);
            if front.contains(id) {
                let j = front.index_of(id);
                assert(ids[j] == id);
            }
            if ids.last() == id {
                assert(ids[ids.len() - 1] == id);
                let i = task_position(before, id)->0;
                if i < k {
                    assert(before[i].id@ != before[k].id@);
                } else if k < i {
                    assert(before[k].id@ != before[i].id@);
                }
            } else if ids.contains(id) {
                let j = ids.index_of(id);
                assert(front[j] == id);
            }
        }
    }
}

/// Work is told to be stopped exactly where one of the tasks with the ids was under way or paused.
pub proof fn law_running_tasks_are_noticed(tasks: Seq<TaskState>, ids: Seq<Seq<char>>, now: u64)
    requires
        unique_ids(tasks),
    ensures
        any_running(tasks, ids, now) <==> exists|k: int|
            0 <= k < tasks.len() && ids.contains((#[trigger] tasks[k]).id@) && (tasks[k].status
                == TaskStatus::Processing || tasks[k].status == TaskStatus::Paused),
    decreases ids.len(),
{
    if ids.len() > 0 {
        let front = ids.drop_last();
        let id = ids.last();
        let before = with_discarded(tasks, front, now);
        law_running_tasks_are_noticed(tasks, front, now);
        law_listed_tasks_are_discarded(tasks, front, now, 0);
        lemma_task_position(before, id);
        assert(ids[ids.len() - 1] == id);
        assert(forall|i: int| 0 <= i < front.len() ==> #[trigger] front[i] == ids[i]);
        if any_running(tasks, ids, now) {
            if any_running(tasks, front, now) {
                let k = choose|k: int|
                    0 <= k < tasks.len() && front.contains((#[trigger] tasks[k]).id@) && (
                    tasks[k].status == TaskStatus::Processing || tasks[k].status
                        == TaskStatus::Paused);
                let j = front.index_of(tasks[k].id@);
                assert(ids[j] == tasks[k].id@);
                assert(ids.contains(tasks[k].id@));
            } else {
                let k = task_position(before, id)->0;
                law_listed_tasks_are_discarded(tasks, front, now, k);
                assert(tasks[k].id@ == id);
                assert(ids.contains(tasks[k].id@));
            }
        }
        if exists|k: int|
            0 <= k < tasks.len() && ids.contains((#[trigger] tasks[k]).id@) && (tasks[k].status
                == TaskStatus::Processing || tasks[k].status == TaskStatus::Paused) {
            let k = choose|k: int|
                0 <= k < tasks.len() && ids.contains((#[trigger] tasks[k]).id@) && (tasks[k].status
                    == TaskStatus::Processing || tasks[k].status == TaskStatus::Paused);
            if !front.contains(tasks[k].id@) {
                let j = ids.index_of(tasks[k].id@);
                if j < front.len() {
                    assert(front[j] == tasks[k].id@);
                }
                assert(tasks[k].id@ == id);
                law_listed_tasks_are_discarded(tasks, front, now, k);
                assert(before[k] == tasks[k]);
                let i = task_position(before, id)->0;
                if i < k {
                    assert(before[i].id@ != before[k].id@);
                } else if k < i {
                    assert(before[k].id@ != before[i].id@);
                }
            }
        }
    }
}

/// The tasks that have none of the ids are kept, in their order, and no others are.
pub proof fn law_only_listed_tasks_are_removed(tasks: Seq<TaskState>, ids: Seq<Seq<char>>)
    requires
        unique_ids(tasks),
    ensures
        without_ids(tasks, ids) == tasks.filter(|t: TaskState| !ids.contains(t.id@)),
    decreases ids.len(),
{
    if ids.len() == 0 {
        lemma_filter_all(tasks, |t: TaskState| !ids.contains(t.id@));
    } else {
        let front = ids.drop_last();
        let id = ids.last();
        let before = without_ids(tasks, front);
        law_only_listed_tasks_are_removed(tasks, front);
        law_deleted_tasks_are_gone(tasks, front);
        if before.len() > 0 {
            law_other_tasks_stay(before, before[0], id, 0);
        } else {
            lemma_filter_all(before, |t: TaskState| t.id@ != id);
        }
        assert(ids =~= front.push(id));
        lemma_filter_twice(tasks, front, id);
    }
}

proof fn lemma_filter_all(tasks: Seq<TaskState>, keep: spec_fn(TaskState) -> bool)
    requires
        forall|i: int| 0 <= i < tasks.len() ==> keep(#[trigger] tasks[i]),
    ensures
        tasks.filter(keep) == tasks,
    decreases tasks.len(),
{
    reveal(Seq::filter);
    if tasks.len() > 0 {
        assert(keep(tasks[tasks.len() - 1]));
        lemma_filter_all(tasks.drop_last(), keep);
        assert(tasks.drop_last().push(tasks.last()) =~= tasks);
    }
}

proof fn lemma_filter_twice(tasks: Seq<TaskState>, ids: Seq<Seq<char>>, id: Seq<char>)
    ensures
        tasks.filter(|t: TaskState| !ids.contains(t.id@)).filter(|t: TaskState| t.id@ != id)
            == tasks.filter(|t: TaskState| !ids.push(id).contains(t.id@)),
    decreases tasks.len(),
{
    reveal(Seq::filter);
    let first = |t: TaskState| !ids.contains(t.id@);
    let second = |t: TaskState| t.id@ != id;
    let both = |t: TaskState| !ids.push(id).contains(t.id@);
    if tasks.len() > 0 {
        let front = tasks.drop_last();
        let t = tasks.last();
        lemma_filter_twice(front, ids, id);
        assert(both(t) == (first(t) && second(t))) by {
            if ids.contains(t.id@) {
                let k = ids.index_of(t.id@);
                assert(ids.push(id)[k] == t.id@);
            }
            assert(ids.push(id)[ids.len() as int] == id);
            if ids.push(id).contains(t.id@) {
                let k = ids.push(id).index_of(t.id@);
                if k < ids.len() {
                    assert(ids[k] == t.id@);
                }
            }
        }
        if first(t) {
            assert(front.filter(first).push(t).drop_last() =~= front.filter(first));
        }
    }
}

/// An id counts as removed where a task had it, and only where it comes first.
pub proof fn law_each_removal_is_told_once(tasks: Seq<TaskState>, ids: Seq<Seq<char>>)
    requires
        unique_ids(tasks),
    ensures
        removed_ids(tasks, ids) == positions(
            ids.len(),
            |i: int|
                (exists|k: int| 0 <= k < tasks.len() && (#[trigger] tasks[k]).id@ == ids[i])
                    && forall|j: int| 0 <= j < i ==> #[trigger] ids[j] != ids[i],
        ).map_values(|i: int| ids[i]),
    decreases ids.len(),
{
    let counts = |i: int|
        (exists|k: int| 0 <= k < tasks.len() && (#[trigger] tasks[k]).id@ == ids[i]) && forall|
            j: int,
        |
            0 <= j < i ==> #[trigger] ids[j] != ids[i];
    let at = |i: int| ids[i];
    if ids.len() == 0 {
        lemma_positions(0, counts);
        assert(positions(0, counts).len() == 0) by {
            if positions(0, counts).len() > 0 {
                assert(0 <= positions(0, counts)[0] < 0);
            }
        }
        assert(positions(0, counts).map_values(at) =~= seq![]);
    } else {
        let front = ids.drop_last();
        let n = front.len();
        let id = ids.last();
        let left = without_ids(tasks, front);
        let counts_front = |i: int|
            (exists|k: int| 0 <= k < tasks.len() && (#[trigger] tasks[k]).id@ == front[i])
                && forall|j: int| 0 <= j < i ==> #[trigger] front[j] != front[i];
        law_each_removal_is_told_once(tasks, front);
        law_deleted_tasks_are_gone(tasks, front);
        assert forall|i: int| 0 <= i < n implies #[trigger] counts(i) == counts_front(i) by {
            assert(forall|j: int| 0 <= j <= i ==> #[trigger] front[j] == ids[j]);
            assert(forall|j: int| 0 <= j <= i ==> #[trigger] ids[j] == front[j]);
        }
        lemma_positions_agree(n, counts, counts_front);
        lemma_positions_step(n, counts);
        lemma_positions(n, counts);
        assert(positions(n, counts).map_values(at) =~= positions(n, counts_front).map_values(
            |i: int| front[i],
        ));
        lemma_task_position(left, id);
        assert((task_position(left, id) is Some) == counts(n as int)) by {
            assert(forall|j: int| 0 <= j < n ==> #[trigger] front[j] == ids[j]);
            if let Some(p) = task_position(left, id) {
                assert(left.contains(left[p]));
                let k = tasks.index_of(left[p]);
                assert(tasks[k].id@ == ids[n as int]);
                assert forall|j: int| 0 <= j < n implies #[trigger] ids[j] != ids[n as int] by {
                    assert(task_position(left, front[j]) is None);
                }
            } else if counts(n as int) {
                let k = choose|k: int|
                    0 <= k < tasks.len() && (#[trigger] tasks[k]).id@ == ids[n as int];
                assert(!front.contains(id)) by {
                    if front.contains(id) {
                        let j = front.index_of(id);
                        assert(ids[j] == id);
                    }
                }
                assert(tasks.contains(tasks[k]));
                assert(left.contains(tasks[k]));
                let p = left.index_of(tasks[k]);
                assert(left[p].id@ == id);
            }
        }
        assert(positions(n, counts).push(n as int).map_values(at) =~= positions(
            n,
            counts,
        ).map_values(at).push(id));
    }
}

/// The message about a deletion tells the number of tasks, then of each kind of thing that was to be
/// deleted too, and how many of these could not be deleted, where there are any.
pub proof fn law_deletions_are_told(c: DeletionCounts, allocations: bool, outputs: bool, sources: bool)
    ensures
        deletion_parts(c, allocations, outputs, sources) == seq![
            "已删除 "@ + decimal(c.tasks as nat) + " 个任务记录"@,
        ] + (if allocations {
            seq![decimal(c.allocations as nat) + " 张分配表"@]
        } else {
            seq![]
        }) + (if outputs {
            seq![decimal(c.outputs as nat) + " 个输出路径"@]
        } else {
            seq![]
        }) + (if sources {
            seq![decimal(c.sources as nat) + " 个源文件"@]
        } else {
            seq![]
        }) + (if c.failed == 0 || !allocations && !outputs && !sources {
            seq![]
        } else {
            seq![decimal(c.failed as nat) + " 项删除失败"@]
        }),
{
    reveal_strlit("");
    assert(forall|n: nat| ""@ + #[trigger] decimal(n) =~= decimal(n));
    assert(counted_text(""@, c.allocations as nat, " 张分配表"@) =~= decimal(c.allocations as nat)
        + " 张分配表"@);
    assert(counted_text(""@, c.outputs as nat, " 个输出路径"@) =~= decimal(c.outputs as nat)
        + " 个输出路径"@);
    assert(counted_text(""@, c.sources as nat, " 个源文件"@) =~= decimal(c.sources as nat)
        + " 个源文件"@);
    assert(counted_text(""@, c.failed as nat, " 项删除失败"@) =~= decimal(c.failed as nat)
        + " 项删除失败"@);
}

} // verus!
