//! What the search for library roots finds on a disk that answers truly.

use vstd::prelude::*;

use crate::path::{all_differ, among, PathView};
use crate::roots::{after, answers, drive_places, index_file, index_paths, listed_tasks, place_tasks, question_of, search_start, usual_tasks, with_root, AnswerView, QuestionView, SearchView, TaskView};

verus! {

/// A disk that does not change: which paths exist, what text the files hold,
/// and which path a written path means.
pub struct Disk {
    pub exists: spec_fn(PathView) -> bool,
    pub text: spec_fn(PathView) -> Option<Seq<char>>,
    pub meaning: spec_fn(Seq<char>) -> PathView,
}

/// The true answer to a question.
pub open spec fn true_answer(disk: Disk, question: QuestionView) -> AnswerView {
    match question {
        QuestionView::ReadText(file) => AnswerView::Text((disk.text)(file)),
        QuestionView::FindPath(text) => AnswerView::Path(
            if (disk.exists)((disk.meaning)(text)) {
                Some((disk.meaning)(text))
            } else {
                None
            },
        ),
        QuestionView::Exists(path) => AnswerView::Exists((disk.exists)(path)),
    }
}

/// The paths that the index of a library lists.
pub open spec fn libraries_of(disk: Disk, root: PathView) -> Seq<Seq<char>> {
    index_paths((disk.text)(index_file(root)))
}

/// The roots with a listed library, where it exists.
pub open spec fn with_listed(disk: Disk, roots: Seq<PathView>, text: Seq<char>) -> Seq<PathView> {
    let path = (disk.meaning)(text);
    if (disk.exists)(path) {
        with_root(roots, path)
    } else {
        roots
    }
}

/// The roots with the listed libraries that exist, one after the other.
pub open spec fn with_all_listed(
    disk: Disk,
    roots: Seq<PathView>,
    texts: Seq<Seq<char>>,
) -> Seq<PathView>
    decreases texts.len(),
{
    if texts.len() == 0 {
        roots
    } else {
        with_all_listed(disk, with_listed(disk, roots, texts.first()), texts.drop_first())
    }
}

/// The roots with a usual place, where it exists and is new, and with the
/// libraries that its index lists, where that is to be read.
pub open spec fn with_place(
    disk: Disk,
    roots: Seq<PathView>,
    place: (PathView, bool),
) -> Seq<PathView> {
    if (disk.exists)(place.0) && !among(roots, place.0) {
        if place.1 {
            with_all_listed(disk, roots.push(place.0), libraries_of(disk, place.0))
        } else {
            roots.push(place.0)
        }
    } else {
        roots
    }
}

/// The roots with the usual places, one after the other.
pub open spec fn with_all_places(
    disk: Disk,
    roots: Seq<PathView>,
    places: Seq<(PathView, bool)>,
) -> Seq<PathView>
    decreases places.len(),
{
    if places.len() == 0 {
        roots
    } else {
        with_all_places(disk, with_place(disk, roots, places.first()), places.drop_first())
    }
}

/// The roots after one task.
pub open spec fn with_task(disk: Disk, roots: Seq<PathView>, task: TaskView) -> Seq<PathView> {
    match task {
        TaskView::Index(root) => with_all_listed(disk, roots, libraries_of(disk, root)),
        TaskView::Listed(text) => with_listed(disk, roots, text),
        TaskView::Candidate(place, indexed) => with_place(disk, roots, (place, indexed)),
        TaskView::Drive(drive) => if (disk.exists)(drive) {
            with_all_places(disk, roots, drive_places(drive))
        } else {
            roots
        },
    }
}

/// The roots after all tasks, one after the other.
pub open spec fn with_all_tasks(
    disk: Disk,
    roots: Seq<PathView>,
    tasks: Seq<TaskView>,
) -> Seq<PathView>
    decreases tasks.len(),
{
    if tasks.len() == 0 {
        roots
    } else {
        with_all_tasks(disk, with_task(disk, roots, tasks.first()), tasks.drop_first())
    }
}

/// How many questions a usual place takes at most.
pub open spec fn place_cost(disk: Disk, place: (PathView, bool)) -> nat {
    if place.1 {
        2 + libraries_of(disk, place.0).len()
    } else {
        1
    }
}

/// How many questions usual places take at most.
pub open spec fn places_cost(disk: Disk, places: Seq<(PathView, bool)>) -> nat
    decreases places.len(),
{
    if places.len() == 0 {
        0
    } else {
        place_cost(disk, places.first()) + places_cost(disk, places.drop_first())
    }
}

/// How many questions a task takes at most.
pub open spec fn task_cost(disk: Disk, task: TaskView) -> nat {
    match task {
        TaskView::Index(root) => 1 + libraries_of(disk, root).len(),
        TaskView::Listed(_) => 1,
        TaskView::Candidate(place, indexed) => place_cost(disk, (place, indexed)),
        TaskView::Drive(drive) => 1 + places_cost(disk, drive_places(drive)),
    }
}

/// How many questions tasks take at most.
pub open spec fn tasks_cost(disk: Disk, tasks: Seq<TaskView>) -> nat
    decreases tasks.len(),
{
    if tasks.len() == 0 {
        0
    } else {
        task_cost(disk, tasks.first()) + tasks_cost(disk, tasks.drop_first())
    }
}

/// The search after the true answer to its question.
pub open spec fn next(disk: Disk, s: SearchView) -> SearchView {
    after(s, true_answer(disk, question_of(s.tasks.first())))
}

/// The search after `n` true answers, or at its end where that comes first.
pub open spec fn run(disk: Disk, s: SearchView, n: nat) -> SearchView
    decreases n,
{
    if n == 0 || s.tasks.len() == 0 {
        s
    } else {
        run(disk, next(disk, s), (n - 1) as nat)
    }
}

proof fn lemma_listed_first(
    disk: Disk,
    roots: Seq<PathView>,
    texts: Seq<Seq<char>>,
    rest: Seq<TaskView>,
)
    ensures
        with_all_tasks(disk, roots, listed_tasks(texts) + rest) == with_all_tasks(
            disk,
            with_all_listed(disk, roots, texts),
            rest,
        ),
        tasks_cost(disk, listed_tasks(texts) + rest) == texts.len() + tasks_cost(disk, rest),
    decreases texts.len(),
{
    let tasks = listed_tasks(texts) + rest;
    if texts.len() == 0 {
        assert(tasks == rest);
    } else {
        lemma_listed_first(
            disk,
            with_listed(disk, roots, texts.first()),
            texts.drop_first(),
            rest,
        );
        assert(tasks.first() == TaskView::Listed(texts.first()));
        assert(tasks.drop_first() == listed_tasks(texts.drop_first()) + rest);
    }
}

proof fn lemma_places_first(
    disk: Disk,
    roots: Seq<PathView>,
    places: Seq<(PathView, bool)>,
    rest: Seq<TaskView>,
)
    ensures
        with_all_tasks(disk, roots, place_tasks(places) + rest) == with_all_tasks(
            disk,
            with_all_places(disk, roots, places),
            rest,
        ),
        tasks_cost(disk, place_tasks(places) + rest) == places_cost(disk, places) + tasks_cost(
            disk,
            rest,
        ),
    decreases places.len(),
{
    let tasks = place_tasks(places) + rest;
    if places.len() == 0 {
        assert(tasks == rest);
    } else {
        lemma_places_first(
            disk,
            with_place(disk, roots, places.first()),
            places.drop_first(),
            rest,
        );
        assert(tasks.first() == TaskView::Candidate(places.first().0, places.first().1));
        assert(tasks.drop_first() == place_tasks(places.drop_first()) + rest);
    }
}

/// A true answer does not change what the search will have found in the end,
/// and brings its end nearer.
pub proof fn true_answers_keep_the_outcome(disk: Disk, s: SearchView)
    requires
        s.tasks.len() > 0,
    ensures
        answers(
            question_of(s.tasks.first()),
            true_answer(disk, question_of(s.tasks.first())),
        ),
        with_all_tasks(disk, next(disk, s).roots, next(disk, s).tasks) == with_all_tasks(
            disk,
            s.roots,
            s.tasks,
        ),
        tasks_cost(disk, next(disk, s).tasks) < tasks_cost(disk, s.tasks),
{
    let rest = s.tasks.drop_first();
    match s.tasks.first() {
        TaskView::Index(root) => {
            lemma_listed_first(disk, s.roots, libraries_of(disk, root), rest);
        },
        TaskView::Listed(_) => {},
        TaskView::Candidate(place, indexed) => {
            if (disk.exists)(place) && !among(s.roots, place) && indexed {
                let tasks = seq![TaskView::Index(place)] + rest;
                assert(tasks.first() == TaskView::Index(place));
                assert(tasks.drop_first() == rest);
            }
        },
        TaskView::Drive(drive) => {
            if (disk.exists)(drive) {
                lemma_places_first(disk, s.roots, drive_places(drive), rest);
            }
        },
    }
}

proof fn lemma_run(disk: Disk, s: SearchView, n: nat)
    requires
        tasks_cost(disk, s.tasks) <= n,
    ensures
        run(disk, s, n).tasks.len() == 0,
        run(disk, s, n).roots == with_all_tasks(disk, s.roots, s.tasks),
    decreases n,
{
    if s.tasks.len() > 0 {
        true_answers_keep_the_outcome(disk, s);
        lemma_run(disk, next(disk, s), (n - 1) as nat);
    }
}

/// The roots that a disk holds, in order of priority: the directory of Steam,
/// the libraries of its index, and the usual places.
pub open spec fn roots_on(
    disk: Disk,
    userdata: PathView,
    home: Option<PathView>,
) -> Seq<PathView> {
    match userdata.parent() {
        Some(steam) => with_all_tasks(
            disk,
            with_all_listed(disk, seq![steam], libraries_of(disk, steam)),
            usual_tasks(userdata.platform, home),
        ),
        None => with_all_tasks(disk, Seq::empty(), usual_tasks(userdata.platform, home)),
    }
}

/// The search ends, and it has then found exactly the roots of the disk in
/// their order of priority.
pub proof fn search_finds_the_roots(
    disk: Disk,
    userdata: PathView,
    home: Option<PathView>,
)
    ensures
        exists|n: nat| ({
            let end = #[trigger] run(disk, search_start(userdata, home), n);
            end.tasks.len() == 0 && end.roots == roots_on(disk, userdata, home)
        }),
{
    let s = search_start(userdata, home);
    let n = tasks_cost(disk, s.tasks);
    lemma_run(disk, s, n);
    match userdata.parent() {
        Some(steam) => {
            assert(s.tasks.first() == TaskView::Index(steam));
            assert(s.tasks.drop_first() == usual_tasks(userdata.platform, home));
        },
        None => {},
    }
    assert(run(disk, s, n).tasks.len() == 0);
}

/// Whatever the answer, the roots found so far stay, in their order, and no
/// root is found twice, however it is written.
pub proof fn roots_only_grow(s: SearchView, answer: AnswerView)
    requires
        s.tasks.len() > 0,
        answers(question_of(s.tasks.first()), answer),
    ensures
        s.roots.is_prefix_of(after(s, answer).roots),
        after(s, answer).roots.len() <= s.roots.len() + 1,
        all_differ(s.roots) ==> all_differ(after(s, answer).roots),
{
    assert(s.roots.is_prefix_of(s.roots));
    assert(forall|p: PathView| s.roots.is_prefix_of(#[trigger] s.roots.push(p)));
}

/// A search begins without a root found twice, and with the directory above
/// the user data as its first root where there is one.
pub proof fn search_starts_at_steam(
    userdata: PathView,
    home: Option<PathView>,
)
    ensures
        all_differ(search_start(userdata, home).roots),
        userdata.parent() is Some ==> search_start(userdata, home).roots == seq![
            userdata.parent()->0,
        ],
        userdata.parent() is None ==> search_start(userdata, home).roots.len() == 0,
{
}

/// A root that a true answer adds exists on the disk.
pub proof fn added_roots_exist(disk: Disk, s: SearchView, root: PathView)
    requires
        s.tasks.len() > 0,
        next(disk, s).roots.contains(root),
        !s.roots.contains(root),
    ensures
        (disk.exists)(root),
{
    let now = next(disk, s).roots;
    let i = choose|i: int| 0 <= i < now.len() && now[i] == root;
    assert(now[i] == root);
    if i < s.roots.len() {
        assert(s.roots[i] == now[i]);
    }
}

/// The last look below a drive, at the bare library directory, finds nothing
/// new: where that directory exists, it is a root already.
pub proof fn bare_library_is_found_before(disk: Disk, roots: Seq<PathView>, drive: PathView)
    ensures
        with_all_places(disk, roots, drive_places(drive)) == with_all_places(
            disk,
            roots,
            drive_places(drive).drop_last(),
        ),
{
    let places = drive_places(drive);
    let most = places.drop_last();
    lemma_split_places(disk, roots, most, places.last());
    assert(most.push(places.last()) == places);
    let four = most.take(4);
    let fifth = most[4];
    let sixth = most[5];
    lemma_split_places(disk, roots, four, fifth);
    lemma_split_places(disk, roots, four.push(fifth), sixth);
    assert(four.push(fifth).push(sixth) == most);
    let r4 = with_all_places(disk, roots, four);
    let r5 = with_place(disk, r4, fifth);
    let r6 = with_place(disk, r5, sixth);
    let bare = places.last().0;
    assert(fifth.0 == bare);
    if (disk.exists)(bare) {
        assert(among(r5, bare)) by {
            if !among(r4, bare) {
                let r = r4.push(bare);
                assert(r[r4.len() as int].same(bare));
                lemma_listed_keep(disk, r, libraries_of(disk, bare), bare);
            }
        }
        if (disk.exists)(sixth.0) && !among(r5, sixth.0) {
            let r = r5.push(sixth.0);
            let i = choose|i: int| 0 <= i < r5.len() && (#[trigger] r5[i]).same(bare);
            assert(r[i].same(bare));
            lemma_listed_keep(disk, r, libraries_of(disk, sixth.0), bare);
        }
        assert(among(r6, bare));
    }
}

proof fn lemma_split_places(
    disk: Disk,
    roots: Seq<PathView>,
    places: Seq<(PathView, bool)>,
    last: (PathView, bool),
)
    ensures
        with_all_places(disk, roots, places.push(last)) == with_place(
            disk,
            with_all_places(disk, roots, places),
            last,
        ),
    decreases places.len(),
{
    let all = places.push(last);
    if places.len() == 0 {
        reveal_with_fuel(with_all_places, 2);
        assert(all.first() == last);
        assert(all.drop_first() == places);
    } else {
        assert(all.first() == places.first());
        assert(all.drop_first() == places.drop_first().push(last));
        lemma_split_places(
            disk,
            with_place(disk, roots, places.first()),
            places.drop_first(),
            last,
        );
    }
}

pub(crate) proof fn lemma_listed_keep(
    disk: Disk,
    roots: Seq<PathView>,
    texts: Seq<Seq<char>>,
    root: PathView,
)
    requires
        among(roots, root),
    ensures
        among(with_all_listed(disk, roots, texts), root),
    decreases texts.len(),
{
    if texts.len() > 0 {
        let more = with_listed(disk, roots, texts.first());
        let i = choose|i: int| 0 <= i < roots.len() && (#[trigger] roots[i]).same(root);
        assert(more[i].same(root));
        lemma_listed_keep(disk, more, texts.drop_first(), root);
    }
}

} // verus!
