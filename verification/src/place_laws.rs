//! What holds of all places: where things are looked for, and what is found.

use vstd::prelude::*;

use crate::locate::{cache_of, is_userdata, userdata_places_of};
use crate::path::{all_differ, among, is_name, leading, lemma_pieces_add, lemma_plain_pieces, names_lead_down, pieces, plain, texts_lead_on, FsPath, PathView, Platform};
use crate::path_laws::{plain_texts_are_names, relative_paths_keep_their_dot, separators_part_names};
use crate::pattern::{all_matches, all_matches_are_determined, found_all, is_space, leftmost_match, match_at, matches_exist, patterns_differ, quoted_at, GroupsView, LIBRARY_PATH_PATTERN};
use crate::root_laws::{lemma_listed_keep, libraries_of, roots_on, with_all_listed, with_all_places, with_all_tasks, with_listed, with_place, with_task, Disk};
use crate::roots::{dota_cfg, drive_places, drive_root, drive_tasks, home_places, index_file, index_paths, lemma_listed_paths, usual_tasks, Answer, AnswerView, Question, QuestionView, RootSearch, TaskView};
use crate::text::infix_at;

verus! {

proof fn lemma_is_name(platform: Platform, text: Seq<char>)
    requires
        text.len() > 2,
        forall|i: int|
            0 <= i < text.len() ==> #[trigger] text[i] != '/' && text[i] != '\\' && text[i] != ':',
    ensures
        is_name(platform, text),
{
    assert(plain(platform, text));
}

proof fn lemma_library_names(platform: Platform)
    ensures
        is_name(platform, "steamapps"@),
        is_name(platform, "libraryfolders.vdf"@),
        is_name(platform, "common"@),
        is_name(platform, "dota 2 beta"@),
        is_name(platform, "game"@),
        is_name(platform, "dota"@),
        is_name(platform, "cfg"@),
{
    reveal_strlit("steamapps");
    assert("steamapps"@ =~= seq!['s', 't', 'e', 'a', 'm', 'a', 'p', 'p', 's']);
    lemma_is_name(platform, "steamapps"@);
    reveal_strlit("libraryfolders.vdf");
    assert("libraryfolders.vdf"@ =~= seq!['l', 'i', 'b', 'r', 'a', 'r', 'y', 'f', 'o', 'l', 'd', 'e', 'r', 's', '.', 'v', 'd', 'f']);
    lemma_is_name(platform, "libraryfolders.vdf"@);
    reveal_strlit("common");
    assert("common"@ =~= seq!['c', 'o', 'm', 'm', 'o', 'n']);
    lemma_is_name(platform, "common"@);
    reveal_strlit("dota 2 beta");
    assert("dota 2 beta"@ =~= seq!['d', 'o', 't', 'a', ' ', '2', ' ', 'b', 'e', 't', 'a']);
    lemma_is_name(platform, "dota 2 beta"@);
    reveal_strlit("game");
    assert("game"@ =~= seq!['g', 'a', 'm', 'e']);
    lemma_is_name(platform, "game"@);
    reveal_strlit("dota");
    assert("dota"@ =~= seq!['d', 'o', 't', 'a']);
    lemma_is_name(platform, "dota"@);
    reveal_strlit("cfg");
    assert("cfg"@ =~= seq!['c', 'f', 'g']);
    lemma_is_name(platform, "cfg"@);
}

/// The index of a library lies two names below its root, on every platform.
pub proof fn indexes_lie_below_the_root(root: PathView)
    ensures
        index_file(root).platform == root.platform,
        index_file(root).root == root.root,
        index_file(root).names() == root.names() + seq!["steamapps"@, "libraryfolders.vdf"@],
        index_file(root) == root.below("steamapps"@).below("libraryfolders.vdf"@),
{
    lemma_library_names(root.platform);
    names_lead_down(root, "steamapps"@);
    names_lead_down(root.below("steamapps"@), "libraryfolders.vdf"@);
    assert(index_file(root).names() =~= root.names() + seq!["steamapps"@, "libraryfolders.vdf"@]);
}

/// The configuration of Dota 2 lies six names below the root of its library, on
/// every platform.
pub proof fn dota_lies_below_the_root(root: PathView)
    ensures
        dota_cfg(root).platform == root.platform,
        dota_cfg(root).root == root.root,
        dota_cfg(root).names() == root.names() + seq![
            "steamapps"@,
            "common"@,
            "dota 2 beta"@,
            "game"@,
            "dota"@,
            "cfg"@,
        ],
        dota_cfg(root) == root.below("steamapps"@).below("common"@).below("dota 2 beta"@).below(
            "game"@,
        ).below("dota"@).below("cfg"@),
{
    lemma_library_names(root.platform);
    let a = root.below("steamapps"@);
    let b = a.below("common"@);
    let c = b.below("dota 2 beta"@);
    let d = c.below("game"@);
    let e = d.below("dota"@);
    names_lead_down(root, "steamapps"@);
    names_lead_down(a, "common"@);
    names_lead_down(b, "dota 2 beta"@);
    names_lead_down(c, "game"@);
    names_lead_down(d, "dota"@);
    names_lead_down(e, "cfg"@);
    assert(dota_cfg(root).names() =~= root.names() + seq![
        "steamapps"@,
        "common"@,
        "dota 2 beta"@,
        "game"@,
        "dota"@,
        "cfg"@,
    ]);
}

/// On Windows the drives are looked at from A to Z; elsewhere the places below
/// the home directory and the mount points, in their order, and none without a
/// home directory.
pub proof fn usual_places_are_looked_at(home: PathView, i: int)
    ensures
        usual_tasks(Platform::Windows, None).len() == 26,
        usual_tasks(Platform::Windows, Some(home)) == usual_tasks(Platform::Windows, None),
        0 <= i < 26 ==> usual_tasks(Platform::Windows, None)[i] == TaskView::Drive(
            PathView {
                platform: Platform::Windows,
                root: seq![(65 + i) as char, ':', '\\'],
                body: Seq::empty(),
            },
        ),
        usual_tasks(Platform::Other, None).len() == 0,
        usual_tasks(Platform::Other, Some(home)).len() == 4,
        usual_tasks(Platform::Other, Some(home))[0] == TaskView::Candidate(
            home.below(".steam/steam"@),
            false,
        ),
        usual_tasks(Platform::Other, Some(home))[1] == TaskView::Candidate(
            home.below(".local/share/Steam"@),
            false,
        ),
        usual_tasks(Platform::Other, Some(home))[2] == TaskView::Candidate(
            PathView { platform: Platform::Other, root: "/"@, body: "mnt/games/Steam"@ },
            false,
        ),
        usual_tasks(Platform::Other, Some(home))[3] == TaskView::Candidate(
            PathView { platform: Platform::Other, root: "/"@, body: "media/games/Steam"@ },
            false,
        ),
{
    if 0 <= i < 26 {
        assert(drive_tasks()[i] == TaskView::Drive(drive_root(i)));
    }
}

/// Below a drive there are six usual places, the index of each of which is read
/// where it is new, and then the bare library directory once more.
pub proof fn drives_have_usual_places(drive: PathView)
    ensures
        ({
            let places = drive_places(drive);
            &&& places.len() == 7
            &&& places[0] == (drive.below("Steam"@), true)
            &&& places[1] == (drive.below("Program Files (x86)\\Steam"@), true)
            &&& places[2] == (drive.below("Program Files\\Steam"@), true)
            &&& places[3] == (drive.below("Games\\Steam"@), true)
            &&& places[4] == (drive.below("SteamLibrary"@), true)
            &&& places[5] == (drive.below("Games\\SteamLibrary"@), true)
            &&& places[6] == (drive.below("SteamLibrary"@), false)
        }),
{
}

/// The user data is looked for, on Windows, below the directory in which Steam
/// is installed, where that is known, and then in the usual directories; elsewhere
/// below the home directory, and nowhere without one.
pub proof fn user_data_has_usual_places(install: PathView, home: PathView)
    ensures
        ({
            let first = PathView {
                platform: Platform::Windows,
                root: "C:\\"@,
                body: "Program Files (x86)\\Steam\\userdata"@,
            };
            let second = PathView {
                platform: Platform::Windows,
                root: "C:\\"@,
                body: "Program Files\\Steam\\userdata"@,
            };
            &&& forall|h: Option<PathView>| #[trigger]
                userdata_places_of(Platform::Windows, Some(install), h) == seq![
                    install.below("userdata"@),
                    first,
                    second,
                ]
            &&& forall|h: Option<PathView>| #[trigger]
                userdata_places_of(Platform::Windows, None, h) == seq![first, second]
            &&& forall|d: Option<PathView>| #[trigger]
                userdata_places_of(Platform::Other, d, Some(home)) == seq![
                    home.below(".steam/steam/userdata"@),
                    home.below(".local/share/Steam/userdata"@),
                    home.below(".steam/debian-installation/userdata"@),
                ]
            &&& forall|d: Option<PathView>| #[trigger]
                userdata_places_of(Platform::Other, d, None) == Seq::<PathView>::empty()
        }),
{
    let first = PathView {
        platform: Platform::Windows,
        root: "C:\\"@,
        body: "Program Files (x86)\\Steam\\userdata"@,
    };
    let second = PathView {
        platform: Platform::Windows,
        root: "C:\\"@,
        body: "Program Files\\Steam\\userdata"@,
    };
    assert forall|h: Option<PathView>| #[trigger]
        userdata_places_of(Platform::Windows, Some(install), h) == seq![
            install.below("userdata"@),
            first,
            second,
        ] by {
        assert(userdata_places_of(Platform::Windows, Some(install), h) =~= seq![
            install.below("userdata"@),
            first,
            second,
        ]);
    }
}

/// An index in which the given paths are listed, each after its label, with
/// something without quotes before and after each of them.
pub open spec fn index_text(gap: Seq<char>, space: Seq<char>, paths: Seq<Seq<char>>) -> Seq<char>
    decreases paths.len(),
{
    if paths.len() == 0 {
        gap
    } else {
        gap + "\"path\""@ + space + seq!['"'] + paths.first() + seq!['"'] + index_text(
            gap,
            space,
            paths.drop_first(),
        )
    }
}

proof fn lemma_index(
    before: Seq<char>,
    gap: Seq<char>,
    space: Seq<char>,
    paths: Seq<Seq<char>>,
) -> (found: Seq<GroupsView>)
    requires
        forall|i: int| 0 <= i < gap.len() ==> #[trigger] gap[i] != '"',
        space.len() > 0,
        forall|i: int| 0 <= i < space.len() ==> is_space(#[trigger] space[i]),
        forall|k: int|
            0 <= k < paths.len() ==> (#[trigger] paths[k]).len() > 0 && forall|i: int|
                0 <= i < paths[k].len() ==> #[trigger] paths[k][i] != '"',
    ensures
        all_matches(
            LIBRARY_PATH_PATTERN@,
            before + index_text(gap, space, paths),
            before.len() as int,
            found,
        ),
        found.len() == paths.len(),
        forall|k: int|
            0 <= k < paths.len() ==> (#[trigger] found[k]).len() == 2 && found[k][1] == Some(
                paths[k],
            ),
    decreases paths.len(),
{
    patterns_differ();
    let p = LIBRARY_PATH_PATTERN@;
    let text = before + index_text(gap, space, paths);
    let from = before.len() as int;
    let quoted = seq!['"'] + "path"@ + seq!['"'];
    let label = "\"path\""@;
    reveal_strlit("\"path\"");
    reveal_strlit("path");
    assert(label =~= quoted);
    let s = from + gap.len();
    assert forall|t: int, e: int, g: GroupsView| from <= t < s implies !#[trigger] match_at(
        p,
        text,
        t,
        e,
        g,
    ) by {
        assert(text[t] == gap[t - from]);
        if infix_at(text, quoted, t) {
            assert(text.subrange(t, t + quoted.len())[0] == quoted[0]);
        }
    }
    if paths.len() == 0 {
        let found = Seq::<GroupsView>::empty();
        assert(text == before + gap);
        assert(all_matches(p, text, from, found));
        found
    } else {
        let path = paths[0];
        let rest = paths.drop_first();
        let entry = gap + label + space + seq!['"'] + path + seq!['"'];
        let so_far = before + entry;
        assert(text =~= so_far + index_text(gap, space, rest));
        assert forall|k: int| 0 <= k < rest.len() implies (#[trigger] rest[k]).len() > 0 && forall|
            i: int,
        | 0 <= i < rest[k].len() ==> #[trigger] rest[k][i] != '"' by {
            assert(rest[k] == paths[k + 1]);
        }
        let others = lemma_index(so_far, gap, space, rest);
        let o = s + quoted.len() + space.len();
        let c = o + 1 + path.len();
        assert(c + 1 == so_far.len());
        assert(text.subrange(s, s + quoted.len()) =~= quoted);
        assert(infix_at(text, quoted, s));
        assert forall|i: int| s + quoted.len() <= i < o implies is_space(#[trigger] text[i]) by {
            assert(text[i] == space[i - s - quoted.len()]);
        }
        assert forall|i: int| o < i < c implies #[trigger] text[i] != '"' by {
            assert(text[i] == path[i - o - 1]);
        }
        assert(text[o] == '"' && text[c] == '"');
        assert(quoted_at(text, "path"@, s, o, c + 1 - 1));
        assert(text.subrange(o + 1, c) =~= path);
        let groups = seq![Some(text.subrange(s, c + 1)), Some(text.subrange(o + 1, c))];
        assert(match_at(p, text, s, c + 1, groups));
        let found = seq![groups] + others;
        assert(found.first() == groups);
        assert(found.drop_first() =~= others);
        assert(leftmost_match(p, text, from, s, c + 1, found.first()));
        assert(all_matches(p, text, from, found));
        assert forall|k: int| 0 <= k < paths.len() implies (#[trigger] found[k]).len() == 2
            && found[k][1] == Some(paths[k]) by {
            if k > 0 {
                assert(found[k] == others[k - 1]);
                assert(paths[k] == rest[k - 1]);
            }
        }
        found
    }
}

/// The paths that an index lists are read back, all of them and in their order;
/// an index that could not be read lists none.
pub proof fn listed_libraries_are_read(
    gap: Seq<char>,
    space: Seq<char>,
    paths: Seq<Seq<char>>,
)
    requires
        forall|i: int| 0 <= i < gap.len() ==> #[trigger] gap[i] != '"',
        space.len() > 0,
        forall|i: int| 0 <= i < space.len() ==> is_space(#[trigger] space[i]),
        forall|k: int|
            0 <= k < paths.len() ==> (#[trigger] paths[k]).len() > 0 && forall|i: int|
                0 <= i < paths[k].len() ==> #[trigger] paths[k][i] != '"',
    ensures
        index_paths(Some(index_text(gap, space, paths))) == paths,
        index_paths(None) == Seq::<Seq<char>>::empty(),
{
    let p = LIBRARY_PATH_PATTERN@;
    let none = Seq::<char>::empty();
    let text = index_text(gap, space, paths);
    let found = lemma_index(none, gap, space, paths);
    assert(none + text == text);
    matches_exist(p, text);
    all_matches_are_determined(p, text, 0, found, found_all(p, text));
    lemma_listed_paths(found);
    assert(index_paths(Some(text)) =~= paths);
}

proof fn lemma_listed_found(
    disk: Disk,
    roots: Seq<PathView>,
    texts: Seq<Seq<char>>,
    k: int,
)
    requires
        0 <= k < texts.len(),
        (disk.exists)((disk.meaning)(texts[k])),
    ensures
        among(with_all_listed(disk, roots, texts), (disk.meaning)(texts[k])),
    decreases texts.len(),
{
    let more = with_listed(disk, roots, texts.first());
    let rest = texts.drop_first();
    let path = (disk.meaning)(texts[k]);
    if k == 0 {
        if !among(roots, path) {
            assert(more[roots.len() as int].same(path));
        }
        assert(among(more, path));
        lemma_listed_keep(disk, more, rest, path);
    } else {
        assert(rest[k - 1] == texts[k]);
        lemma_listed_found(disk, more, rest, k - 1);
    }
}

proof fn lemma_place_keeps(
    disk: Disk,
    roots: Seq<PathView>,
    place: (PathView, bool),
    root: PathView,
)
    requires
        among(roots, root),
    ensures
        among(with_place(disk, roots, place), root),
{
    if (disk.exists)(place.0) && !among(roots, place.0) {
        let more = roots.push(place.0);
        let i = choose|i: int| 0 <= i < roots.len() && (#[trigger] roots[i]).same(root);
        assert(more[i].same(root));
        if place.1 {
            lemma_listed_keep(disk, more, libraries_of(disk, place.0), root);
        }
    }
}

proof fn lemma_places_keep(
    disk: Disk,
    roots: Seq<PathView>,
    places: Seq<(PathView, bool)>,
    root: PathView,
)
    requires
        among(roots, root),
    ensures
        among(with_all_places(disk, roots, places), root),
    decreases places.len(),
{
    if places.len() > 0 {
        lemma_place_keeps(disk, roots, places.first(), root);
        lemma_places_keep(
            disk,
            with_place(disk, roots, places.first()),
            places.drop_first(),
            root,
        );
    }
}

proof fn lemma_place_found(
    disk: Disk,
    roots: Seq<PathView>,
    places: Seq<(PathView, bool)>,
    k: int,
)
    requires
        0 <= k < places.len(),
        (disk.exists)(places[k].0),
    ensures
        among(with_all_places(disk, roots, places), places[k].0),
    decreases places.len(),
{
    let more = with_place(disk, roots, places.first());
    let rest = places.drop_first();
    if k == 0 {
        let place = places[0];
        if !among(roots, place.0) {
            let r = roots.push(place.0);
            assert(r[roots.len() as int].same(place.0));
            if place.1 {
                lemma_listed_keep(disk, r, libraries_of(disk, place.0), place.0);
            }
        }
        assert(among(more, place.0));
        lemma_places_keep(disk, more, rest, place.0);
    } else {
        assert(rest[k - 1] == places[k]);
        lemma_place_found(disk, more, rest, k - 1);
    }
}

proof fn lemma_task_keeps(disk: Disk, roots: Seq<PathView>, task: TaskView, root: PathView)
    requires
        among(roots, root),
    ensures
        among(with_task(disk, roots, task), root),
{
    match task {
        TaskView::Index(r) => {
            lemma_listed_keep(disk, roots, libraries_of(disk, r), root);
        },
        TaskView::Listed(text) => {
            let more = with_listed(disk, roots, text);
            let i = choose|i: int| 0 <= i < roots.len() && (#[trigger] roots[i]).same(root);
            assert(more[i].same(root));
        },
        TaskView::Candidate(place, indexed) => {
            lemma_place_keeps(disk, roots, (place, indexed), root);
        },
        TaskView::Drive(drive) => {
            lemma_places_keep(disk, roots, drive_places(drive), root);
        },
    }
}

proof fn lemma_tasks_keep(disk: Disk, roots: Seq<PathView>, tasks: Seq<TaskView>, root: PathView)
    requires
        among(roots, root),
    ensures
        among(with_all_tasks(disk, roots, tasks), root),
    decreases tasks.len(),
{
    if tasks.len() > 0 {
        lemma_task_keeps(disk, roots, tasks.first(), root);
        lemma_tasks_keep(disk, with_task(disk, roots, tasks.first()), tasks.drop_first(), root);
    }
}

proof fn lemma_task_found(
    disk: Disk,
    roots: Seq<PathView>,
    tasks: Seq<TaskView>,
    k: int,
    root: PathView,
)
    requires
        0 <= k < tasks.len(),
        forall|r: Seq<PathView>| among(#[trigger] with_task(disk, r, tasks[k]), root),
    ensures
        among(with_all_tasks(disk, roots, tasks), root),
    decreases tasks.len(),
{
    let more = with_task(disk, roots, tasks.first());
    let rest = tasks.drop_first();
    if k == 0 {
        lemma_tasks_keep(disk, more, rest, root);
    } else {
        assert(rest[k - 1] == tasks[k]);
        lemma_task_found(disk, more, rest, k - 1, root);
    }
}

/// Every library that Steam's index lists and that exists is found.
pub proof fn libraries_of_steam_are_found(
    disk: Disk,
    userdata: PathView,
    home: Option<PathView>,
    k: int,
)
    requires
        userdata.parent() is Some,
        ({
            let index = userdata.parent()->0.below("steamapps"@).below("libraryfolders.vdf"@);
            let listed = index_paths((disk.text)(index));
            0 <= k < listed.len() && (disk.exists)((disk.meaning)(listed[k]))
        }),
    ensures
        ({
            let index = userdata.parent()->0.below("steamapps"@).below("libraryfolders.vdf"@);
            let listed = index_paths((disk.text)(index));
            among(roots_on(disk, userdata, home), (disk.meaning)(listed[k]))
        }),
{
    let steam = userdata.parent()->0;
    let texts = libraries_of(disk, steam);
    lemma_listed_found(disk, seq![steam], texts, k);
    lemma_tasks_keep(
        disk,
        with_all_listed(disk, seq![steam], texts),
        usual_tasks(userdata.platform, home),
        (disk.meaning)(texts[k]),
    );
}

/// On Windows every usual place that exists below a drive that exists is found,
/// from A to Z.
pub proof fn places_on_drives_are_found(
    disk: Disk,
    userdata: PathView,
    home: Option<PathView>,
    letter: int,
    k: int,
)
    requires
        userdata.platform == Platform::Windows,
        0 <= letter < 26,
        0 <= k < 6,
        ({
            let drive = PathView {
                platform: Platform::Windows,
                root: seq![(65 + letter) as char, ':', '\\'],
                body: Seq::empty(),
            };
            let names = seq![
                "Steam"@,
                "Program Files (x86)\\Steam"@,
                "Program Files\\Steam"@,
                "Games\\Steam"@,
                "SteamLibrary"@,
                "Games\\SteamLibrary"@,
            ];
            (disk.exists)(drive) && (disk.exists)(drive.below(names[k]))
        }),
    ensures
        ({
            let drive = PathView {
                platform: Platform::Windows,
                root: seq![(65 + letter) as char, ':', '\\'],
                body: Seq::empty(),
            };
            let names = seq![
                "Steam"@,
                "Program Files (x86)\\Steam"@,
                "Program Files\\Steam"@,
                "Games\\Steam"@,
                "SteamLibrary"@,
                "Games\\SteamLibrary"@,
            ];
            among(roots_on(disk, userdata, home), drive.below(names[k]))
        }),
{
    let drive = drive_root(letter);
    let places = drive_places(drive);
    let tasks = usual_tasks(Platform::Windows, home);
    let place = places[k].0;
    assert(tasks[letter] == TaskView::Drive(drive));
    assert forall|r: Seq<PathView>| among(#[trigger] with_task(disk, r, tasks[letter]), place) by {
        lemma_place_found(disk, r, places, k);
    }
    match userdata.parent() {
        Some(steam) => {
            lemma_task_found(
                disk,
                with_all_listed(disk, seq![steam], libraries_of(disk, steam)),
                tasks,
                letter,
                place,
            );
        },
        None => {
            lemma_task_found(disk, Seq::empty(), tasks, letter, place);
        },
    }
}

/// Elsewhere every usual place that exists, below the home directory or at a
/// mount point, is found.
pub proof fn places_at_home_are_found(disk: Disk, userdata: PathView, home: PathView, k: int)
    requires
        userdata.platform == Platform::Other,
        0 <= k < 4,
        ({
            let places = seq![
                home.below(".steam/steam"@),
                home.below(".local/share/Steam"@),
                PathView { platform: Platform::Other, root: "/"@, body: "mnt/games/Steam"@ },
                PathView { platform: Platform::Other, root: "/"@, body: "media/games/Steam"@ },
            ];
            (disk.exists)(places[k])
        }),
    ensures
        ({
            let places = seq![
                home.below(".steam/steam"@),
                home.below(".local/share/Steam"@),
                PathView { platform: Platform::Other, root: "/"@, body: "mnt/games/Steam"@ },
                PathView { platform: Platform::Other, root: "/"@, body: "media/games/Steam"@ },
            ];
            among(roots_on(disk, userdata, Some(home)), places[k])
        }),
{
    let places = home_places(home);
    let tasks = usual_tasks(Platform::Other, Some(home));
    let place = places[k].0;
    assert(tasks[k] == TaskView::Candidate(place, false));
    assert forall|r: Seq<PathView>| among(#[trigger] with_task(disk, r, tasks[k]), place) by {
        if !among(r, place) {
            assert(r.push(place)[r.len() as int].same(place));
        }
    }
    match userdata.parent() {
        Some(steam) => {
            lemma_task_found(
                disk,
                with_all_listed(disk, seq![steam], libraries_of(disk, steam)),
                tasks,
                k,
                place,
            );
        },
        None => {
            lemma_task_found(disk, Seq::empty(), tasks, k, place);
        },
    }
}

/// A usual place that is new brings the libraries that its index lists with it,
/// where they exist.
pub proof fn new_places_bring_their_libraries(
    disk: Disk,
    roots: Seq<PathView>,
    place: PathView,
    k: int,
)
    requires
        (disk.exists)(place),
        !among(roots, place),
        ({
            let index = place.below("steamapps"@).below("libraryfolders.vdf"@);
            let listed = index_paths((disk.text)(index));
            0 <= k < listed.len() && (disk.exists)((disk.meaning)(listed[k]))
        }),
    ensures
        ({
            let index = place.below("steamapps"@).below("libraryfolders.vdf"@);
            let listed = index_paths((disk.text)(index));
            among(with_place(disk, roots, (place, true)), (disk.meaning)(listed[k]))
        }),
{
    lemma_listed_found(disk, roots.push(place), libraries_of(disk, place), k);
}

/// Whether the later roots are the earlier ones and then some that exist and are
/// not among those before them.
pub open spec fn grown(disk: Disk, before: Seq<PathView>, after: Seq<PathView>) -> bool {
    &&& before.len() <= after.len()
    &&& after.take(before.len() as int) == before
    &&& forall|i: int|
        before.len() <= i < after.len() ==> (disk.exists)(#[trigger] after[i]) && !among(
            after.take(i),
            after[i],
        )
}

proof fn lemma_grown_more(disk: Disk, a: Seq<PathView>, b: Seq<PathView>, c: Seq<PathView>)
    requires
        grown(disk, a, b),
        grown(disk, b, c),
    ensures
        grown(disk, a, c),
{
    assert(c.take(a.len() as int) =~= a) by {
        assert forall|i: int| 0 <= i < a.len() implies c[i] == a[i] by {
            assert(c.take(b.len() as int)[i] == b[i]);
            assert(b.take(a.len() as int)[i] == a[i]);
        }
    }
    assert forall|i: int| a.len() <= i < c.len() implies (disk.exists)(#[trigger] c[i]) && !among(
        c.take(i),
        c[i],
    ) by {
        if i < b.len() {
            assert(c.take(b.len() as int)[i] == b[i]);
            assert(c.take(i) =~= b.take(i)) by {
                assert forall|k: int| 0 <= k < i implies c[k] == b[k] by {
                    assert(c.take(b.len() as int)[k] == b[k]);
                }
            }
            assert((disk.exists)(b[i]) && !among(b.take(i), b[i]));
        }
    }
}

proof fn lemma_grown_by_one(disk: Disk, roots: Seq<PathView>, root: PathView)
    requires
        (disk.exists)(root),
        !among(roots, root),
    ensures
        grown(disk, roots, roots.push(root)),
{
    let more = roots.push(root);
    assert(more.take(roots.len() as int) =~= roots);
    assert forall|i: int| roots.len() <= i < more.len() implies (disk.exists)(#[trigger] more[i])
        && !among(more.take(i), more[i]) by {
        assert(i == roots.len());
    }
}

proof fn lemma_not_grown(disk: Disk, roots: Seq<PathView>)
    ensures
        grown(disk, roots, roots),
{
    assert(roots.take(roots.len() as int) =~= roots);
}

proof fn lemma_listed_grow(disk: Disk, roots: Seq<PathView>, texts: Seq<Seq<char>>)
    ensures
        grown(disk, roots, with_all_listed(disk, roots, texts)),
    decreases texts.len(),
{
    lemma_not_grown(disk, roots);
    if texts.len() > 0 {
        let path = (disk.meaning)(texts.first());
        let more = with_listed(disk, roots, texts.first());
        if (disk.exists)(path) && !among(roots, path) {
            lemma_grown_by_one(disk, roots, path);
        }
        lemma_listed_grow(disk, more, texts.drop_first());
        lemma_grown_more(disk, roots, more, with_all_listed(disk, roots, texts));
    }
}

proof fn lemma_place_grows(disk: Disk, roots: Seq<PathView>, place: (PathView, bool))
    ensures
        grown(disk, roots, with_place(disk, roots, place)),
{
    lemma_not_grown(disk, roots);
    if (disk.exists)(place.0) && !among(roots, place.0) {
        let more = roots.push(place.0);
        lemma_grown_by_one(disk, roots, place.0);
        if place.1 {
            lemma_listed_grow(disk, more, libraries_of(disk, place.0));
            lemma_grown_more(disk, roots, more, with_place(disk, roots, place));
        }
    }
}

proof fn lemma_places_grow(disk: Disk, roots: Seq<PathView>, places: Seq<(PathView, bool)>)
    ensures
        grown(disk, roots, with_all_places(disk, roots, places)),
    decreases places.len(),
{
    lemma_not_grown(disk, roots);
    if places.len() > 0 {
        let more = with_place(disk, roots, places.first());
        lemma_place_grows(disk, roots, places.first());
        lemma_places_grow(disk, more, places.drop_first());
        lemma_grown_more(disk, roots, more, with_all_places(disk, roots, places));
    }
}

proof fn lemma_tasks_grow(disk: Disk, roots: Seq<PathView>, tasks: Seq<TaskView>)
    ensures
        grown(disk, roots, with_all_tasks(disk, roots, tasks)),
    decreases tasks.len(),
{
    lemma_not_grown(disk, roots);
    if tasks.len() > 0 {
        let more = with_task(disk, roots, tasks.first());
        match tasks.first() {
            TaskView::Index(r) => {
                lemma_listed_grow(disk, roots, libraries_of(disk, r));
            },
            TaskView::Listed(text) => {
                let path = (disk.meaning)(text);
                if (disk.exists)(path) && !among(roots, path) {
                    lemma_grown_by_one(disk, roots, path);
                }
            },
            TaskView::Candidate(place, indexed) => {
                lemma_place_grows(disk, roots, (place, indexed));
            },
            TaskView::Drive(drive) => {
                lemma_places_grow(disk, roots, drive_places(drive));
            },
        }
        lemma_tasks_grow(disk, more, tasks.drop_first());
        lemma_grown_more(disk, roots, more, with_all_tasks(disk, roots, tasks));
    }
}

/// The first root is the directory above the user data, where there is one. Then
/// come the libraries of its index, before all usual places. Every root but the
/// first exists, and no two roots are the same.
pub proof fn roots_come_in_order(disk: Disk, userdata: PathView, home: Option<PathView>)
    ensures
        ({
            let roots = roots_on(disk, userdata, home);
            &&& all_differ(roots)
            &&& userdata.parent() matches Some(steam) ==> {
                let known = with_all_listed(
                    disk,
                    seq![steam],
                    index_paths(
                        (disk.text)(steam.below("steamapps"@).below("libraryfolders.vdf"@)),
                    ),
                );
                &&& roots.len() > 0
                &&& roots[0] == steam
                &&& known.len() <= roots.len()
                &&& roots.take(known.len() as int) == known
                &&& forall|i: int| 1 <= i < roots.len() ==> (disk.exists)(#[trigger] roots[i])
            }
            &&& userdata.parent() is None ==> forall|i: int|
                0 <= i < roots.len() ==> (disk.exists)(#[trigger] roots[i])
        }),
{
    let roots = roots_on(disk, userdata, home);
    let tasks = usual_tasks(userdata.platform, home);
    let none = Seq::<PathView>::empty();
    match userdata.parent() {
        Some(steam) => {
            let one = seq![steam];
            let texts = libraries_of(disk, steam);
            let known = with_all_listed(disk, one, texts);
            lemma_listed_grow(disk, one, texts);
            lemma_tasks_grow(disk, known, tasks);
            lemma_grown_more(disk, one, known, roots);
            assert(roots.take(1)[0] == one[0]);
            lemma_grown_differ(disk, one, roots);
        },
        None => {
            lemma_tasks_grow(disk, none, tasks);
            lemma_grown_differ(disk, none, roots);
        },
    }
}

proof fn lemma_grown_differ(disk: Disk, before: Seq<PathView>, after: Seq<PathView>)
    requires
        before.len() <= 1,
        grown(disk, before, after),
    ensures
        all_differ(after),
{
    assert forall|i: int, j: int| 0 <= i < j < after.len() implies !(#[trigger] after[i]).same(
        #[trigger] after[j],
    ) by {
        assert(!among(after.take(j), after[j]));
        assert(after.take(j)[i] == after[i]);
    }
}

/// Listed libraries are taken in the order of the index: each that exists comes
/// after all before it, unless it is among them.
pub proof fn libraries_come_in_the_order_of_the_index(
    disk: Disk,
    roots: Seq<PathView>,
    texts: Seq<Seq<char>>,
    text: Seq<char>,
)
    ensures
        with_all_listed(disk, roots, Seq::empty()) == roots,
        ({
            let before = with_all_listed(disk, roots, texts);
            let path = (disk.meaning)(text);
            with_all_listed(disk, roots, texts.push(text)) == if (disk.exists)(path) && !among(
                before,
                path,
            ) {
                before.push(path)
            } else {
                before
            }
        }),
    decreases texts.len(),
{
    let all = texts.push(text);
    if texts.len() == 0 {
        reveal_with_fuel(with_all_listed, 2);
        assert(all.first() == text);
        assert(all.drop_first() =~= texts);
    } else {
        assert(all.first() == texts.first());
        assert(all.drop_first() =~= texts.drop_first().push(text));
        libraries_come_in_the_order_of_the_index(
            disk,
            with_listed(disk, roots, texts.first()),
            texts.drop_first(),
            text,
        );
    }
}

/// Questions, answers and tasks say what they are, and a search what it holds.
pub proof fn search_words_say_what_they_are(
    path: FsPath,
    text: String,
    yes: bool,
    search: RootSearch,
)
    ensures
        Question::ReadText(path)@ == QuestionView::ReadText(path@),
        Question::FindPath(text)@ == QuestionView::FindPath(text@),
        Question::Exists(path)@ == QuestionView::Exists(path@),
        Question::Exists(path).deep_view() == Question::Exists(path)@,
        Question::FindPath(text).deep_view() == Question::FindPath(text)@,
        Question::ReadText(path).deep_view() == Question::ReadText(path)@,
        Answer::Text(Some(text))@ == AnswerView::Text(Some(text@)),
        Answer::Text(None)@ == AnswerView::Text(None),
        Answer::Path(Some(path))@ == AnswerView::Path(Some(path@)),
        Answer::Path(None)@ == AnswerView::Path(None),
        Answer::Exists(yes)@ == AnswerView::Exists(yes),
        search@.roots.len() == search.roots.len(),
        forall|i: int|
            0 <= i < search.roots.len() ==> #[trigger] search@.roots[i] == search.roots[i]@,
        search@.tasks.len() == search.tasks.len(),
{
}

/// Nothing that does not exist is taken for the user data, and any directory that
/// does is; what is no directory is taken for it on Windows alone.
pub proof fn user_data_exists(platform: Platform, is_dir: bool)
    ensures
        !is_userdata(platform, false, is_dir),
        is_userdata(platform, true, true),
        is_userdata(platform, true, false) <==> platform == Platform::Windows,
{
}

/// Pictures are cached two names below the cache directory, on every platform,
/// and below the current directory where there is none.
pub proof fn pictures_are_cached_below(platform: Platform, dir: PathView)
    requires
        dir.body.len() > 0 || dir.root.len() > 0,
    ensures
        cache_of(platform, Some(dir)).platform == dir.platform,
        cache_of(platform, Some(dir)).root == dir.root,
        cache_of(platform, Some(dir)).names() == dir.names() + seq!["dota_tools"@, "avatars"@],
        cache_of(platform, Some(dir)) == dir.below("dota_tools/avatars"@),
        cache_of(platform, None).platform == platform,
        cache_of(platform, None).root.len() == 0,
        cache_of(platform, None).names() == seq!["."@, "dota_tools"@, "avatars"@],
{
    reveal_strlit("dota_tools/avatars");
    reveal_strlit("dota_tools");
    reveal_strlit("avatars");
    reveal_strlit(".");
    let text = "dota_tools/avatars"@;
    let a = "dota_tools"@;
    let b = "avatars"@;
    let root = seq!['/'];
    assert(text =~= a.push('/') + b);
    assert(a =~= seq!['d', 'o', 't', 'a', '_', 't', 'o', 'o', 'l', 's']);
    assert(b =~= seq!['a', 'v', 'a', 't', 'a', 'r', 's']);
    lemma_two_names(dir.platform, a, b);
    lemma_two_names(platform, a, b);
    lemma_two_first(dir.platform, a, b);
    lemma_two_first(platform, a, b);
    texts_lead_on(dir, text);
    let here = PathView { platform, root: Seq::empty(), body: "."@ };
    assert("."@ =~= seq!['.']);
    texts_lead_on(here, text);
    relative_paths_keep_their_dot(platform, here.root, here.body);
    plain_texts_are_names(platform, root, here.body);
    assert(here.names() =~= seq![seq!['.']]);
    assert(cache_of(platform, None).names() =~= seq!["."@, a, b]);
}

proof fn lemma_two_names(platform: Platform, a: Seq<char>, b: Seq<char>)
    requires
        a.len() > 1,
        b.len() > 1,
        forall|i: int| 0 <= i < a.len() ==> #[trigger] a[i] != '/' && a[i] != '\\',
        forall|i: int| 0 <= i < b.len() ==> #[trigger] b[i] != '/' && b[i] != '\\',
    ensures
        leading(pieces(platform, a.push('/') + b)) == seq![a, b],
{
    let root = seq!['/'];
    separators_part_names(platform, root, a, '/', b);
    plain_texts_are_names(platform, root, a);
    plain_texts_are_names(platform, root, b);
    assert(seq![a] + seq![b] =~= seq![a, b]);
}

proof fn lemma_two_first(platform: Platform, a: Seq<char>, b: Seq<char>)
    requires
        a.len() > 1,
        forall|i: int| 0 <= i < a.len() ==> #[trigger] a[i] != '/' && a[i] != '\\',
    ensures
        pieces(platform, a.push('/') + b).first() == a,
{
    lemma_plain_pieces(platform, a);
    lemma_pieces_add(platform, a.push('/'), b);
    assert(a.push('/').drop_last() =~= a);
    assert(pieces(platform, a.push('/')) =~= seq![a].push(Seq::empty()));
    assert(pieces(platform, a.push('/')).drop_last().first() == a);
}

} // verus!
