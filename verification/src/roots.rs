//! The search for the roots of Steam's libraries, and for Dota 2 in them.
//!
//! The search asks questions about the disk, one at a time, and takes the
//! answers. In order of priority it looks at
//!
//!  1. the directory of Steam itself, above the user data;
//!  2. the further libraries that Steam lists in its index;
//!  3. the usual places: on Windows below every drive, where the index of each
//!     place found is read as well; elsewhere below the home directory and the
//!     usual mount points.

use vstd::prelude::*;
use vstd::string::*;

use crate::path::{among, path_of, FsPath, PathView, Platform};
use crate::pattern::{each_is_a_match, find_all, found_all, get_group, group, match_at, matches_exist, patterns_differ, quoted_at, Groups, GroupsView, LIBRARY_PATH_PATTERN};

verus! {

/// Something that the search has yet to look at.
#[derive(Debug)]
pub enum RootTask {
    /// The index of the libraries that the root knows of.
    Index(FsPath),
    /// A library that an index lists.
    Listed(String),
    /// A usual place, and whether its index is read where it is a new root.
    Candidate(FsPath, bool),
    /// A drive.
    Drive(FsPath),
}

/// What a task says.
pub enum TaskView {
    Index(PathView),
    Listed(Seq<char>),
    Candidate(PathView, bool),
    Drive(PathView),
}

impl View for RootTask {
    type V = TaskView;

    open spec fn view(&self) -> TaskView {
        match self {
            RootTask::Index(p) => TaskView::Index(p@),
            RootTask::Listed(t) => TaskView::Listed(t@),
            RootTask::Candidate(p, indexed) => TaskView::Candidate(p@, *indexed),
            RootTask::Drive(p) => TaskView::Drive(p@),
        }
    }
}

impl DeepView for RootTask {
    type V = TaskView;

    open spec fn deep_view(&self) -> TaskView {
        self@
    }
}

/// A question about the disk.
#[derive(Debug)]
pub enum Question {
    /// What text does the file hold?
    ReadText(FsPath),
    /// Which path is written so, if it exists?
    FindPath(String),
    /// Does the path exist?
    Exists(FsPath),
}

/// What a question says.
pub enum QuestionView {
    ReadText(PathView),
    FindPath(Seq<char>),
    Exists(PathView),
}

impl View for Question {
    type V = QuestionView;

    open spec fn view(&self) -> QuestionView {
        match self {
            Question::ReadText(p) => QuestionView::ReadText(p@),
            Question::FindPath(t) => QuestionView::FindPath(t@),
            Question::Exists(p) => QuestionView::Exists(p@),
        }
    }
}

impl DeepView for Question {
    type V = QuestionView;

    open spec fn deep_view(&self) -> QuestionView {
        self@
    }
}

/// The answer to a question.
#[derive(Debug)]
pub enum Answer {
    /// The text of the file, if it could be read.
    Text(Option<String>),
    /// The path, if it exists.
    Path(Option<FsPath>),
    /// Whether the path exists.
    Exists(bool),
}

/// What an answer says.
pub enum AnswerView {
    Text(Option<Seq<char>>),
    Path(Option<PathView>),
    Exists(bool),
}

impl View for Answer {
    type V = AnswerView;

    open spec fn view(&self) -> AnswerView {
        match self {
            Answer::Text(t) => AnswerView::Text(t.deep_view()),
            Answer::Path(p) => AnswerView::Path(p.deep_view()),
            Answer::Exists(b) => AnswerView::Exists(*b),
        }
    }
}

/// A search under way: the roots found so far, and what is still to be done,
/// the next task first.
#[derive(Debug)]
pub struct RootSearch {
    pub roots: Vec<FsPath>,
    pub tasks: Vec<RootTask>,
}

/// What a search under way says.
#[verifier::ext_equal]
pub struct SearchView {
    pub roots: Seq<PathView>,
    pub tasks: Seq<TaskView>,
}

impl View for RootSearch {
    type V = SearchView;

    open spec fn view(&self) -> SearchView {
        SearchView { roots: self.roots.deep_view(), tasks: self.tasks.deep_view() }
    }
}

/// The file in which the library at `root` lists the libraries that it knows.
pub open spec fn index_file(root: PathView) -> PathView {
    root.below("steamapps"@).below("libraryfolders.vdf"@)
}

/// The paths that the matches of the library pattern give: the first group of
/// each match that has one.
pub open spec fn listed_paths(matches: Seq<GroupsView>) -> Seq<Seq<char>>
    decreases matches.len(),
{
    if matches.len() == 0 {
        Seq::empty()
    } else {
        match group(matches.last(), 1) {
            Some(path) => listed_paths(matches.drop_last()).push(path),
            None => listed_paths(matches.drop_last()),
        }
    }
}

/// The paths that an index lists; none where it could not be read.
pub open spec fn index_paths(text: Option<Seq<char>>) -> Seq<Seq<char>> {
    match text {
        Some(t) => listed_paths(found_all(LIBRARY_PATH_PATTERN@, t)),
        None => Seq::empty(),
    }
}

/// Reads the listed paths off the matches of the library pattern.
pub fn library_paths_from_matches(matches: &Vec<Groups>) -> (r: Vec<String>)
    ensures
        r.deep_view() == listed_paths(matches.deep_view()),
{
    let mut r: Vec<String> = Vec::new();
    let mut i: usize = 0;
    assert(r.deep_view() == Seq::<Seq<char>>::empty());
    while i < matches.len()
        invariant
            i <= matches.len(),
            r.deep_view() == listed_paths(matches.deep_view().take(i as int)),
        decreases matches.len() - i,
    {
        proof {
            let now = matches.deep_view().take(i + 1);
            assert(now.drop_last() == matches.deep_view().take(i as int));
            assert(now.last() == matches[i as int].deep_view());
        }
        let ghost before = r.deep_view();
        if let Some(path) = get_group(&matches[i], 1) {
            r.push(path);
            assert(r.deep_view() == before.push(path@));
        }
        i += 1;
    }
    assert(matches.deep_view().take(i as int) == matches.deep_view());
    r
}

/// The paths of the libraries that the text of an index lists, in its order.
pub fn library_paths(text: &str) -> (r: Vec<String>)
    ensures
        r.deep_view() == index_paths(Some(text@)),
{
    let matches: Vec<Groups> = find_all(LIBRARY_PATH_PATTERN, text);
    library_paths_from_matches(&matches)
}

pub(crate) proof fn lemma_listed_paths(matches: Seq<GroupsView>)
    requires
        forall|i: int| 0 <= i < matches.len() ==> group(#[trigger] matches[i], 1) is Some,
    ensures
        listed_paths(matches).len() == matches.len(),
        forall|i: int|
            0 <= i < matches.len() ==> #[trigger] listed_paths(matches)[i] == group(
                matches[i],
                1,
            )->0,
    decreases matches.len(),
{
    if matches.len() > 0 {
        let rest = matches.drop_last();
        assert forall|i: int| 0 <= i < rest.len() implies group(#[trigger] rest[i], 1) is Some by {
            assert(rest[i] == matches[i]);
        }
        lemma_listed_paths(rest);
        assert(group(matches[matches.len() - 1], 1) is Some);
        assert forall|i: int| 0 <= i < matches.len() implies #[trigger] listed_paths(matches)[i]
            == group(matches[i], 1)->0 by {
            if i < rest.len() {
                assert(listed_paths(rest)[i] == group(rest[i], 1)->0);
            }
        }
    }
}

/// Every entry of an index gives a path, in the order of the entries, and no
/// path that an index lists is empty.
pub proof fn index_entries_give_paths(text: Seq<char>)
    ensures
        ({
            let entries = found_all(LIBRARY_PATH_PATTERN@, text);
            let paths = index_paths(Some(text));
            &&& paths.len() == entries.len()
            &&& forall|i: int|
                0 <= i < paths.len() ==> (#[trigger] paths[i]).len() > 0 && Some(paths[i])
                    == group(entries[i], 1)
        }),
{
    let p = LIBRARY_PATH_PATTERN@;
    let entries = found_all(p, text);
    matches_exist(p, text);
    patterns_differ();
    assert forall|i: int| 0 <= i < entries.len() implies group(#[trigger] entries[i], 1) is Some
        && group(entries[i], 1)->0.len() > 0 by {
        each_is_a_match(p, text, 0, entries, i);
        let (s, e) = choose|s: int, e: int| #[trigger] match_at(p, text, s, e, entries[i]);
        let o = choose|o: int| #[trigger]
            quoted_at(text, "path"@, s, o, e - 1) && entries[i] == seq![
                Some(text.subrange(s, e)),
                Some(text.subrange(o + 1, e - 1)),
            ];
        assert(group(entries[i], 1) == Some(text.subrange(o + 1, e - 1)));
    }
    lemma_listed_paths(entries);
}

/// The tasks of looking at the listed paths.
pub open spec fn listed_tasks(paths: Seq<Seq<char>>) -> Seq<TaskView> {
    paths.map_values(|t: Seq<char>| TaskView::Listed(t))
}

/// The root of the drive with the given letter, counted from `A`.
pub open spec fn drive_root(letter: int) -> PathView {
    PathView {
        platform: Platform::Windows,
        root: seq![('A' as u32 + letter) as char, ':', '\\'],
        body: Seq::empty(),
    }
}

/// The usual places of a library below a drive, each with whether its index is
/// read.
pub open spec fn drive_places(drive: PathView) -> Seq<(PathView, bool)> {
    seq![
        (drive.below("Steam"@), true),
        (drive.below("Program Files (x86)\\Steam"@), true),
        (drive.below("Program Files\\Steam"@), true),
        (drive.below("Games\\Steam"@), true),
        (drive.below("SteamLibrary"@), true),
        (drive.below("Games\\SteamLibrary"@), true),
        (drive.below("SteamLibrary"@), false),
    ]
}

/// The usual place of a library below a mount point.
pub open spec fn mounted(body: Seq<char>) -> PathView {
    PathView { platform: Platform::Other, root: "/"@, body }
}

/// The usual places of a library where there are no drives.
pub open spec fn home_places(home: PathView) -> Seq<(PathView, bool)> {
    seq![
        (home.below(".steam/steam"@), false),
        (home.below(".local/share/Steam"@), false),
        (mounted("mnt/games/Steam"@), false),
        (mounted("media/games/Steam"@), false),
    ]
}

/// The tasks of looking at the places.
pub open spec fn place_tasks(places: Seq<(PathView, bool)>) -> Seq<TaskView> {
    places.map_values(|p: (PathView, bool)| TaskView::Candidate(p.0, p.1))
}

/// The tasks of looking at all drives.
pub open spec fn drive_tasks() -> Seq<TaskView> {
    Seq::new(26, |i: int| TaskView::Drive(drive_root(i)))
}

/// The tasks that do not depend on the user data.
pub open spec fn usual_tasks(platform: Platform, home: Option<PathView>) -> Seq<TaskView> {
    match platform {
        Platform::Windows => drive_tasks(),
        Platform::Other => match home {
            Some(h) => place_tasks(home_places(h)),
            None => Seq::empty(),
        },
    }
}

/// The search at its beginning. The directory above the user data is a root
/// without being looked at.
pub open spec fn search_start(userdata: PathView, home: Option<PathView>) -> SearchView {
    match userdata.parent() {
        Some(steam) => SearchView {
            roots: seq![steam],
            tasks: seq![TaskView::Index(steam)] + usual_tasks(userdata.platform, home),
        },
        None => SearchView {
            roots: Seq::empty(),
            tasks: usual_tasks(userdata.platform, home),
        },
    }
}

/// The question that a task asks.
pub open spec fn question_of(task: TaskView) -> QuestionView {
    match task {
        TaskView::Index(root) => QuestionView::ReadText(index_file(root)),
        TaskView::Listed(text) => QuestionView::FindPath(text),
        TaskView::Candidate(place, _) => QuestionView::Exists(place),
        TaskView::Drive(drive) => QuestionView::Exists(drive),
    }
}

/// Whether an answer is of the kind that the question asks for.
pub open spec fn answers(question: QuestionView, answer: AnswerView) -> bool {
    match question {
        QuestionView::ReadText(_) => answer is Text,
        QuestionView::FindPath(_) => answer is Path,
        QuestionView::Exists(_) => answer is Exists,
    }
}

/// The roots with one more, unless it is among them.
pub open spec fn with_root(roots: Seq<PathView>, root: PathView) -> Seq<PathView> {
    if among(roots, root) {
        roots
    } else {
        roots.push(root)
    }
}

/// The search after the index of the next task turned out to list the paths.
pub open spec fn after_index(s: SearchView, paths: Seq<Seq<char>>) -> SearchView {
    SearchView { roots: s.roots, tasks: listed_tasks(paths) + s.tasks.drop_first() }
}

/// The search after the answer to its question.
pub open spec fn after(s: SearchView, answer: AnswerView) -> SearchView {
    let rest = s.tasks.drop_first();
    match (s.tasks.first(), answer) {
        (TaskView::Index(_), AnswerView::Text(text)) => after_index(s, index_paths(text)),
        (TaskView::Listed(_), AnswerView::Path(Some(path))) => SearchView {
            roots: with_root(s.roots, path),
            tasks: rest,
        },
        (TaskView::Candidate(place, indexed), AnswerView::Exists(true)) => {
            if among(s.roots, place) {
                SearchView { roots: s.roots, tasks: rest }
            } else if indexed {
                SearchView {
                    roots: s.roots.push(place),
                    tasks: seq![TaskView::Index(place)] + rest,
                }
            } else {
                SearchView { roots: s.roots.push(place), tasks: rest }
            }
        },
        (TaskView::Drive(drive), AnswerView::Exists(true)) => SearchView {
            roots: s.roots,
            tasks: place_tasks(drive_places(drive)) + rest,
        },
        _ => SearchView { roots: s.roots, tasks: rest },
    }
}

fn contains_path(paths: &Vec<FsPath>, path: &FsPath) -> (r: bool)
    ensures
        r == among(paths.deep_view(), path@),
{
    let mut i: usize = 0;
    while i < paths.len()
        invariant
            i <= paths.len(),
            forall|k: int| 0 <= k < i ==> !(#[trigger] paths.deep_view()[k]).same(path@),
        decreases paths.len() - i,
    {
        if paths[i].same_path(path) {
            assert(paths.deep_view()[i as int].same(path@));
            return true;
        }
        i += 1;
    }
    false
}

fn candidates(places: Vec<(FsPath, bool)>) -> (r: Vec<RootTask>)
    ensures
        r.deep_view() == place_tasks(places.deep_view()),
{
    let mut r: Vec<RootTask> = Vec::new();
    let mut i: usize = 0;
    while i < places.len()
        invariant
            i <= places.len(),
            r.deep_view() == place_tasks(places.deep_view()).take(i as int),
        decreases places.len() - i,
    {
        let ghost before = r.deep_view();
        r.push(RootTask::Candidate(places[i].0.copy(), places[i].1));
        assert(r.deep_view() == before.push(place_tasks(places.deep_view())[i as int]));
        i += 1;
    }
    assert(place_tasks(places.deep_view()).take(i as int) == place_tasks(places.deep_view()));
    r
}

fn places_on_drive(drive: &FsPath) -> (r: Vec<(FsPath, bool)>)
    ensures
        r.deep_view() == drive_places(drive@),
{
    let mut r: Vec<(FsPath, bool)> = Vec::new();
    r.push((drive.below("Steam"), true));
    r.push((drive.below("Program Files (x86)\\Steam"), true));
    r.push((drive.below("Program Files\\Steam"), true));
    r.push((drive.below("Games\\Steam"), true));
    r.push((drive.below("SteamLibrary"), true));
    r.push((drive.below("Games\\SteamLibrary"), true));
    r.push((drive.below("SteamLibrary"), false));
    assert(r.deep_view() =~= drive_places(drive@));
    r
}

fn places_at_home(home: &FsPath) -> (r: Vec<(FsPath, bool)>)
    ensures
        r.deep_view() == home_places(home@),
{
    let mut r: Vec<(FsPath, bool)> = Vec::new();
    r.push((home.below(".steam/steam"), false));
    r.push((home.below(".local/share/Steam"), false));
    r.push((path_of(Platform::Other, "/", "mnt/games/Steam"), false));
    r.push((path_of(Platform::Other, "/", "media/games/Steam"), false));
    assert(r.deep_view() =~= home_places(home@));
    r
}

fn all_drives() -> (r: Vec<RootTask>)
    ensures
        r.deep_view() == drive_tasks(),
{
    let mut r: Vec<RootTask> = Vec::new();
    let mut i: u8 = 0;
    while i < 26
        invariant
            i <= 26,
            r.deep_view() == drive_tasks().take(i as int),
        decreases 26 - i,
    {
        let mut root: String = String::new();
        root.push((65u8 + i) as char);
        root.push(':');
        root.push('\\');
        let drive: FsPath = FsPath {
            platform: Platform::Windows,
            root,
            body: String::new(),
        };
        let ghost before = r.deep_view();
        assert(drive@.root == drive_root(i as int).root);
        assert(drive@ == drive_root(i as int));
        r.push(RootTask::Drive(drive));
        assert(r.deep_view() == before.push(drive_tasks()[i as int]));
        i += 1;
    }
    assert(drive_tasks().take(26) == drive_tasks());
    r
}

/// The file in which the library at `root` lists the libraries that it knows.
pub fn library_index(root: &FsPath) -> (r: FsPath)
    ensures
        r@ == index_file(root@),
{
    root.below("steamapps").below("libraryfolders.vdf")
}

/// Begins the search for the library roots of the Steam installation that
/// the user data belongs to.
pub fn collect_steam_library_roots(userdata: &FsPath, home: &Option<FsPath>) -> (r: RootSearch)
    ensures
        r@ == search_start(userdata@, home.deep_view()),
{
    let mut roots: Vec<FsPath> = Vec::new();
    let mut tasks: Vec<RootTask> = Vec::new();
    if let Some(steam) = userdata.parent() {
        roots.push(steam.copy());
        tasks.push(RootTask::Index(steam));
    }
    let mut usual: Vec<RootTask> = match userdata.platform {
        Platform::Windows => all_drives(),
        Platform::Other => match home {
            Some(h) => candidates(places_at_home(h)),
            None => Vec::new(),
        },
    };
    let ghost first = tasks.deep_view();
    let ghost then = usual.deep_view();
    assert(then == usual_tasks(userdata@.platform, home.deep_view()));
    tasks.append(&mut usual);
    assert(tasks.deep_view() == first + then);
    let r: RootSearch = RootSearch { roots, tasks };
    assert(r@ =~= search_start(userdata@, home.deep_view()));
    r
}

impl RootSearch {
    /// The next question; none when the search is over.
    pub fn question(&self) -> (r: Option<Question>)
        ensures
            r.deep_view() == (if self@.tasks.len() == 0 {
                None
            } else {
                Some(question_of(self@.tasks.first()))
            }),
    {
        if self.tasks.len() == 0 {
            return None;
        }
        assert(self@.tasks.first() == self.tasks[0]@);
        match &self.tasks[0] {
            RootTask::Index(root) => Some(Question::ReadText(library_index(root))),
            RootTask::Listed(text) => Some(Question::FindPath(text.clone())),
            RootTask::Candidate(place, _) => Some(Question::Exists(place.copy())),
            RootTask::Drive(drive) => Some(Question::Exists(drive.copy())),
        }
    }

    fn put_first(&mut self, first: Vec<RootTask>)
        ensures
            final(self)@.roots == old(self)@.roots,
            final(self)@.tasks == first.deep_view() + old(self)@.tasks,
    {
        let mut all: Vec<RootTask> = first;
        let ghost head = all.deep_view();
        let ghost tail = self.tasks.deep_view();
        all.append(&mut self.tasks);
        assert(all.deep_view() == head + tail);
        self.tasks = all;
    }

    fn take_first(&mut self) -> (r: RootTask)
        requires
            old(self)@.tasks.len() > 0,
        ensures
            r@ == old(self)@.tasks.first(),
            final(self)@.roots == old(self)@.roots,
            final(self)@.tasks == old(self)@.tasks.drop_first(),
    {
        let ghost before = self.tasks.deep_view();
        let r: RootTask = self.tasks.remove(0);
        assert(self.tasks.deep_view() == before.drop_first());
        r
    }

    fn found(&mut self, root: FsPath) -> (r: bool)
        ensures
            final(self)@.tasks == old(self)@.tasks,
            final(self)@.roots == with_root(old(self)@.roots, root@),
            r == !among(old(self)@.roots, root@),
    {
        if contains_path(&self.roots, &root) {
            false
        } else {
            let ghost before = self.roots.deep_view();
            self.roots.push(root);
            assert(self.roots.deep_view() == before.push(root@));
            true
        }
    }

    /// Takes the paths that the asked index lists.
    pub fn answer_index(&mut self, paths: &Vec<String>)
        requires
            old(self)@.tasks.len() > 0,
            old(self)@.tasks.first() is Index,
        ensures
            final(self)@ == after_index(old(self)@, paths.deep_view()),
    {
        let _ = self.take_first();
        let mut listed: Vec<RootTask> = Vec::new();
        let mut i: usize = 0;
        while i < paths.len()
            invariant
                i <= paths.len(),
                listed.deep_view() == listed_tasks(paths.deep_view()).take(i as int),
            decreases paths.len() - i,
        {
            let ghost before = listed.deep_view();
            listed.push(RootTask::Listed(paths[i].clone()));
            assert(listed.deep_view() == before.push(listed_tasks(paths.deep_view())[i as int]));
            i += 1;
        }
        assert(listed_tasks(paths.deep_view()).take(i as int) == listed_tasks(paths.deep_view()));
        self.put_first(listed);
    }

    /// Takes the answer to the question.
    pub fn answer(&mut self, answer: Answer)
        requires
            old(self)@.tasks.len() > 0,
            answers(question_of(old(self)@.tasks.first()), answer@),
        ensures
            final(self)@ == after(old(self)@, answer@),
    {
        let ghost before = self@;
        match answer {
            Answer::Text(text) => {
                let paths: Vec<String> = match &text {
                    Some(t) => library_paths(t.as_str()),
                    None => Vec::new(),
                };
                assert(paths.deep_view() == index_paths(text.deep_view()));
                self.answer_index(&paths);
            },
            Answer::Path(path) => {
                let _ = self.take_first();
                if let Some(p) = path {
                    let _ = self.found(p);
                }
            },
            Answer::Exists(exists) => {
                let task: RootTask = self.take_first();
                if exists {
                    match task {
                        RootTask::Candidate(place, indexed) => {
                            let again: FsPath = place.copy();
                            if self.found(place) && indexed {
                                let mut index: Vec<RootTask> = Vec::new();
                                index.push(RootTask::Index(again));
                                assert(index.deep_view() == seq![TaskView::Index(again@)]);
                                self.put_first(index);
                            }
                        },
                        RootTask::Drive(drive) => {
                            self.put_first(candidates(places_on_drive(&drive)));
                        },
                        _ => {},
                    }
                }
            },
        }
        assert(self@ =~= after(before, answer@));
    }
}

/// The directory of Dota 2's configuration in the library at `root`.
pub open spec fn dota_cfg(root: PathView) -> PathView {
    root.below("steamapps"@).below("common"@).below("dota 2 beta"@).below("game"@).below(
        "dota"@,
    ).below("cfg"@)
}

/// The directory of Dota 2's configuration in the library at `root`.
pub fn dota_cfg_in(root: &FsPath) -> (r: FsPath)
    ensures
        r@ == dota_cfg(root@),
{
    root.below("steamapps").below("common").below("dota 2 beta").below("game").below("dota").below(
        "cfg",
    )
}

/// The first of the paths of which `present` says that it is there.
pub open spec fn first_present(paths: Seq<PathView>, present: Seq<bool>) -> Option<PathView>
    decreases paths.len(),
{
    if paths.len() == 0 {
        None
    } else if present.first() {
        Some(paths.first())
    } else {
        first_present(paths.drop_first(), present.drop_first())
    }
}

/// The first of the paths that is there.
pub fn pick_present(paths: &Vec<FsPath>, present: &Vec<bool>) -> (r: Option<FsPath>)
    requires
        paths.len() == present.len(),
    ensures
        r.deep_view() == first_present(paths.deep_view(), present@),
{
    let mut i: usize = 0;
    assert(paths.deep_view().skip(0) == paths.deep_view());
    assert(present@.skip(0) == present@);
    while i < paths.len()
        invariant
            i <= paths.len(),
            paths.len() == present.len(),
            first_present(paths.deep_view(), present@) == first_present(
                paths.deep_view().skip(i as int),
                present@.skip(i as int),
            ),
        decreases paths.len() - i,
    {
        if present[i] {
            return Some(paths[i].copy());
        }
        assert(paths.deep_view().skip(i as int).drop_first() == paths.deep_view().skip(i + 1));
        assert(present@.skip(i as int).drop_first() == present@.skip(i + 1));
        i += 1;
    }
    None
}

/// The directories in which Dota 2's configuration may be, one for each root
/// and in their order.
pub fn dota_cfg_places(roots: &Vec<FsPath>) -> (r: Vec<FsPath>)
    ensures
        r.deep_view() == roots.deep_view().map_values(|p: PathView| dota_cfg(p)),
{
    let ghost all = roots.deep_view().map_values(|p: PathView| dota_cfg(p));
    let mut r: Vec<FsPath> = Vec::new();
    let mut i: usize = 0;
    while i < roots.len()
        invariant
            i <= roots.len(),
            all == roots.deep_view().map_values(|p: PathView| dota_cfg(p)),
            r.deep_view() == all.take(i as int),
        decreases roots.len() - i,
    {
        let ghost before = r.deep_view();
        r.push(dota_cfg_in(&roots[i]));
        assert(r.deep_view() == before.push(all[i as int]));
        i += 1;
    }
    assert(all.take(i as int) == all);
    r
}

/// Where Dota 2's configuration is: in the first of the roots that has its
/// directory, as `present` says for each root.
pub fn find_dota_cfg_path(roots: &Vec<FsPath>, present: &Vec<bool>) -> (r: Option<FsPath>)
    requires
        roots.len() == present.len(),
    ensures
        r.deep_view() == first_present(
            roots.deep_view().map_values(|p: PathView| dota_cfg(p)),
            present@,
        ),
{
    pick_present(&dota_cfg_places(roots), present)
}

/// The chosen path is one of the offered ones, it is there, and none before it
/// is; there is no choice exactly when none is there.
pub proof fn first_present_is_first(paths: Seq<PathView>, present: Seq<bool>)
    requires
        paths.len() == present.len(),
    ensures
        match first_present(paths, present) {
            Some(p) => exists|i: int|
                0 <= i < paths.len() && #[trigger] paths[i] == p && present[i] && forall|k: int|
                    0 <= k < i ==> !present[k],
            None => forall|k: int| 0 <= k < paths.len() ==> !present[k],
        },
    decreases paths.len(),
{
    if paths.len() > 0 {
        if present.first() {
            assert(paths[0] == paths.first());
        } else {
            let p = paths.drop_first();
            let b = present.drop_first();
            first_present_is_first(p, b);
            match first_present(p, b) {
                Some(q) => {
                    let i = choose|i: int|
                        0 <= i < p.len() && #[trigger] p[i] == q && b[i] && forall|k: int|
                            0 <= k < i ==> !b[k];
                    assert(paths[i + 1] == q);
                    assert forall|k: int| 0 <= k < i + 1 implies !present[k] by {
                        if k > 0 {
                            assert(!b[k - 1]);
                        }
                    }
                },
                None => {
                    assert forall|k: int| 0 <= k < paths.len() implies !present[k] by {
                        if k > 0 {
                            assert(!b[k - 1]);
                        }
                    }
                },
            }
        }
    }
}

} // verus!
