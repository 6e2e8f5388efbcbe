use dota_tools::path::{path_of, FsPath, Platform};
use dota_tools::roots::{
    collect_steam_library_roots, dota_cfg_in, dota_cfg_places, find_dota_cfg_path, library_index,
    library_paths, library_paths_from_matches, Answer, Question, RootSearch,
};

/// A disk on which some paths exist and some files hold text.
struct Disk {
    present: Vec<&'static str>,
    files: Vec<(&'static str, &'static str)>,
}

fn split(text: &str) -> FsPath {
    match text.strip_prefix('/') {
        Some(rest) => path_of(Platform::Other, "/", rest),
        None => path_of(Platform::Windows, &text[..3], &text[3..]),
    }
}

impl Disk {
    fn answer(&self, question: Question) -> Answer {
        match question {
            Question::ReadText(file) => {
                let name = file.to_text();
                Answer::Text(
                    self.files.iter().find(|f| f.0 == name).map(|f| f.1.to_string()),
                )
            }
            Question::FindPath(text) => {
                let path = split(&text);
                let found = self.present.iter().any(|p| split(p).same_path(&path));
                Answer::Path(if found { Some(path) } else { None })
            }
            Question::Exists(path) => {
                Answer::Exists(self.present.contains(&path.to_text().as_str()))
            }
        }
    }

    fn search(&self, userdata: &str, home: Option<&str>) -> (Vec<String>, usize) {
        let mut search: RootSearch =
            collect_steam_library_roots(&split(userdata), &home.map(split));
        let mut asked = 0;
        while let Some(question) = search.question() {
            asked += 1;
            search.answer(self.answer(question));
        }
        (search.roots.iter().map(|r| r.to_text()).collect(), asked)
    }
}

#[test]
fn listed_paths_are_read() {
    let index = "\"libraryfolders\"\n{\n\t\"0\"\n\t{\n\t\t\"path\"\t\t\"/home/me/.steam/steam\"\n\
                 \t\t\"label\"\t\t\"\"\n\t}\n\t\"1\" { \"path\" \"/mnt/big disk\" }\n}\n";
    assert_eq!(library_paths(index), vec!["/home/me/.steam/steam", "/mnt/big disk"]);
}

#[test]
fn only_whole_entries_are_listed() {
    assert_eq!(library_paths(""), Vec::<String>::new());
    assert_eq!(library_paths("\"path\"\"/a\""), Vec::<String>::new());
    assert_eq!(library_paths("\"path\" \"\""), Vec::<String>::new());
    assert_eq!(library_paths("\"path\" \"/a"), Vec::<String>::new());
    assert_eq!(library_paths("\"Path\" \"/a\""), Vec::<String>::new());
    assert_eq!(library_paths("\"path\" \"\" \"path\" \"/b\""), vec!["/b"]);
    assert_eq!(library_paths("\"path\"\u{3000}\"a\nb\""), vec!["a\nb"]);
    assert_eq!(library_paths("\"path\" \"D:\\\\Games\""), vec!["D:\\\\Games"]);
}

#[test]
fn matches_without_a_path_are_passed_over() {
    let group = |s: &str| Some(s.to_string());
    let matches = vec![vec![group("x"), group("/a")], vec![group("x")], vec![group("x"), None]];
    assert_eq!(library_paths_from_matches(&matches), vec!["/a"]);
}

#[test]
fn steam_itself_is_a_root_even_unseen() {
    let disk = Disk { present: vec![], files: vec![] };
    let (roots, asked) = disk.search("/home/me/.steam/steam/userdata", None);
    assert_eq!(roots, vec!["/home/me/.steam/steam"]);
    assert_eq!(asked, 1);
    let (roots, _) = disk.search("/", Some("/home/me"));
    assert_eq!(roots, Vec::<String>::new());
}

#[test]
fn roots_come_in_order_of_priority_and_once() {
    let disk = Disk {
        present: vec![
            "/media/games/Steam",
            "/home/me/.local/share/Steam",
            "/home/me/.steam/steam",
            "/data/lib",
        ],
        files: vec![(
            "/home/me/.steam/steam/steamapps/libraryfolders.vdf",
            "\"path\" \"/home/me/.steam/steam/\" \"path\" \"/data/lib\" \"path\" \"/gone\" \
             \"path\" \"/data//lib\"",
        )],
    };
    let (roots, asked) = disk.search("/home/me/.steam/steam/userdata", Some("/home/me"));
    assert_eq!(
        roots,
        vec![
            "/home/me/.steam/steam",
            "/data/lib",
            "/home/me/.local/share/Steam",
            "/media/games/Steam",
        ]
    );
    assert_eq!(asked, 1 + 4 + 4);
}

#[test]
fn every_drive_is_searched_on_windows() {
    let disk = Disk {
        present: vec![
            "C:\\",
            "C:\\Program Files (x86)\\Steam",
            "D:\\",
            "D:\\SteamLibrary",
            "D:\\Games\\SteamLibrary",
            "E:\\Extra",
            "F:\\Steam",
        ],
        files: vec![
            (
                "D:\\SteamLibrary\\steamapps\\libraryfolders.vdf",
                "\"path\" \"E:\\\\Extra\" \"path\" \"D:\\\\Games\\\\SteamLibrary\"",
            ),
        ],
    };
    let (roots, asked) = disk.search("C:\\Program Files (x86)\\Steam\\userdata", None);
    assert_eq!(
        roots,
        vec![
            "C:\\Program Files (x86)\\Steam",
            "D:\\SteamLibrary",
            "E:\\\\Extra",
            "D:\\\\Games\\\\SteamLibrary",
        ]
    );
    // The index, the drives, seven places on each of two drives, and the index
    // of one new root with its two entries.
    assert_eq!(asked, 1 + 26 + 2 * 7 + 1 + 2);
}

#[test]
fn an_index_can_be_answered_by_its_paths() {
    let mut search = collect_steam_library_roots(&split("/s/userdata"), &None);
    search.answer_index(&vec!["/x".to_string()]);
    match search.question() {
        Some(Question::FindPath(text)) => assert_eq!(text, "/x"),
        other => panic!("{:?}", other),
    }
    search.answer(Answer::Path(Some(split("/x"))));
    assert!(search.question().is_none());
    assert_eq!(search.roots.len(), 2);
}

#[test]
fn the_index_and_dota_lie_below_the_root() {
    let root = split("/s");
    assert_eq!(
        library_index(&root).to_text(),
        "/s/steamapps/libraryfolders.vdf"
    );
    assert_eq!(
        dota_cfg_in(&root).to_text(),
        "/s/steamapps/common/dota 2 beta/game/dota/cfg"
    );
}

#[test]
fn dota_is_in_the_first_root_that_has_it() {
    let roots = vec![split("/a"), split("/b"), split("/c")];
    let places = dota_cfg_places(&roots);
    assert_eq!(places.len(), 3);
    let found = find_dota_cfg_path(&roots, &vec![false, true, true]).unwrap();
    assert!(found.same_path(&places[1]));
    assert!(find_dota_cfg_path(&roots, &vec![false, false, false]).is_none());
    assert!(find_dota_cfg_path(&vec![], &vec![]).is_none());
}
