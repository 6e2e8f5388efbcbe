use dota_tools::path::{path_of, FsPath, Platform};

fn unix(text: &str) -> FsPath {
    match text.strip_prefix('/') {
        Some(rest) => path_of(Platform::Other, "/", rest),
        None => path_of(Platform::Other, "", text),
    }
}

fn windows(root: &str, body: &str) -> FsPath {
    path_of(Platform::Windows, root, body)
}

const TEXTS: [&str; 22] = [
    "1", "", ".", "..", "a/b", "/x", "/", "./a", "a/./b//c/", "a/../b", ".a", "a\\b", "C:", "...",
    "//a", "/a//b/", "././a", "/./a", "a/.", "./.", "a//.//", "../..",
];

#[test]
fn going_down_and_up_again() {
    let dir = unix("/home/me");
    let sub = dir.below("x");
    assert_eq!(sub.names(), vec!["home", "me", "x"]);
    assert_eq!(sub.parent().unwrap().to_text(), "/home/me");
    assert!(unix("/").parent().is_none());
    assert_eq!(unix("x").parent().unwrap().to_text(), "");
    assert_eq!(windows("C:\\", "a\\\\b/c").parent().unwrap().to_text(), "C:\\a\\\\b");
    assert_eq!(windows("C:", "a").parent().unwrap().to_text(), "C:");
}

#[test]
fn paths_are_the_same_by_root_and_names() {
    assert!(unix("/a/b").same_path(&unix("/a//./b/")));
    assert!(!unix("/a/b").same_path(&unix("/a")));
    assert!(!unix("/a").same_path(&unix("/b")));
    assert!(!unix("/a").same_path(&unix("a")));
    assert!(!unix("./a").same_path(&unix("a")));
    assert!(!unix("/a").same_path(&windows("/", "a")));
    assert!(!unix("/a").below("x").same_path(&unix("/a").below("y")));
    assert!(windows("c:/", "a/b").same_path(&windows("C:\\", "a\\\\b")));
    assert!(!windows("C:", "a").same_path(&windows("C:\\", "a")));
    assert!(!windows("C:\\", "a").same_path(&windows("D:\\", "a")));
    assert!(!windows("C:\\", "A").same_path(&windows("C:\\", "a")));
}

#[test]
fn paths_keep_how_they_are_written() {
    assert_eq!(unix("/a//b/").below("c").to_text(), "/a//b/c");
    assert_eq!(unix("/a").below("b/c").to_text(), "/a/b/c");
    assert_eq!(unix("/a").below("").to_text(), "/a/");
    assert_eq!(unix("").below("b").to_text(), "b");
    assert_eq!(windows("C:\\", "u").below("570/remote/cfg").to_text(), "C:\\u\\570/remote/cfg");
    assert_eq!(windows("C:\\", "").below("a").to_text(), "C:\\a");
    assert_eq!(windows("C:", "").below("a").below("b").to_text(), "C:a\\b");
    assert_eq!(windows("\\\\s\\x", "").below("a").to_text(), "\\\\s\\x\\a");
    assert_eq!(path_of(Platform::Other, "", "C:").below("a").to_text(), "C:/a");
}

/// The names that std sees in a path.
fn components(path: &std::path::Path) -> Vec<String> {
    path.components()
        .filter(|c| !matches!(c, std::path::Component::RootDir))
        .map(|c| c.as_os_str().to_str().unwrap().to_string())
        .collect()
}

#[test]
fn joining_agrees_with_std() {
    for dir in ["/u/v", "/", "", "/u/", "a//b"] {
        for text in TEXTS {
            let joined = unix(dir).join(text);
            let expected = std::path::Path::new(dir).join(text);
            assert_eq!(joined.to_text(), expected.to_str().unwrap(), "{:?} {:?}", dir, text);
            assert_eq!(joined.names(), components(&expected), "{:?} {:?}", dir, text);
        }
    }
}

#[test]
fn parents_agree_with_std() {
    for text in TEXTS {
        let parent = unix(text).parent().map(|p| p.to_text());
        let expected = std::path::Path::new(text).parent().map(|p| p.to_str().unwrap().to_string());
        assert_eq!(parent, expected, "{:?}", text);
    }
}

#[test]
fn sameness_agrees_with_std() {
    for a in TEXTS {
        for b in TEXTS {
            let expected = std::path::Path::new(a) == std::path::Path::new(b);
            assert_eq!(unix(a).same_path(&unix(b)), expected, "{:?} {:?}", a, b);
        }
    }
}

#[test]
fn a_name_leads_one_name_down() {
    let dir = windows("C:\\", "u");
    assert_eq!(dir.join("123").to_text(), "C:\\u\\123");
    assert_eq!(dir.join("123").names(), vec!["u", "123"]);
    assert!(dir.join("123").parent().unwrap().same_path(&dir));
    assert!(dir.join("").same_path(&dir));
    assert!(dir.join(".").same_path(&dir));
}
