use dota_tools::account::{AccountUpdate, SteamAccount};
use dota_tools::fetch::{fetch_account_update, FetchAction, FetchReply};
use dota_tools::path::{path_of, FsPath, Platform};

const PAGE: &str = "<steamID><![CDATA[Ann]]></steamID><avatarMedium><![CDATA[http://p]]></avatarMedium>";
const PROFILE: &str = "text https://steamcommunity.com/profiles/76561197960265735?xml=1";

struct World {
    page: Option<&'static str>,
    cached: bool,
    picture: Option<Vec<u8>>,
    storable: bool,
}

fn world() -> World {
    World { page: Some(PAGE), cached: false, picture: Some(vec![1, 2]), storable: true }
}

fn account(id: &str, name: &str, avatar: bool) -> SteamAccount {
    SteamAccount {
        id: id.to_string(),
        persona_name: name.to_string(),
        avatar_path: if avatar { Some(path_of(Platform::Other, "/", "p")) } else { None },
        conduct: None,
    }
}

fn cache() -> FsPath {
    path_of(Platform::Other, "/", "c")
}

/// Runs a fetch, and returns what it asked for and what it ended with.
fn run(account: &SteamAccount, world: &World) -> (Vec<String>, Option<AccountUpdate>) {
    let mut asked = Vec::new();
    let mut job = fetch_account_update(account, &cache());
    while let Some(action) = job.action() {
        let reply = match action {
            FetchAction::GetText(url) => {
                asked.push(format!("text {}", url));
                FetchReply::Text(world.page.map(|p| p.to_string()))
            }
            FetchAction::Exists(path) => {
                asked.push(format!("exists {}", path.to_text()));
                FetchReply::Exists(world.cached)
            }
            FetchAction::GetBytes(url) => {
                asked.push(format!("bytes {}", url));
                FetchReply::Bytes(world.picture.clone())
            }
            FetchAction::Store(path, bytes) => {
                asked.push(format!("store {} {:?}", path.to_text(), bytes));
                FetchReply::Stored(world.storable)
            }
        };
        job = job.reply(reply);
    }
    (asked, job.outcome())
}

fn parts(update: Option<AccountUpdate>) -> Option<(String, Option<String>, Option<String>)> {
    update.map(|u| (u.id, u.persona_name, u.avatar_path.map(|p| p.to_text())))
}

fn known(name: Option<&str>, avatar: Option<&str>) -> Option<(String, Option<String>, Option<String>)> {
    Some(("7".to_string(), name.map(|s| s.to_string()), avatar.map(|s| s.to_string())))
}

#[test]
fn a_name_and_a_picture_are_fetched() {
    let (asked, update) = run(&account("7", "", false), &world());
    assert_eq!(asked, vec![PROFILE, "exists /c/7.jpg", "bytes http://p", "store /c/7.jpg [1, 2]"]);
    assert_eq!(parts(update), known(Some("Ann"), Some("/c/7.jpg")));
}

#[test]
fn a_complete_account_asks_for_nothing() {
    let (asked, update) = run(&account("7", "Bob", true), &world());
    assert_eq!(asked, Vec::<String>::new());
    assert!(update.is_none());
    let (asked, update) = run(&account("½", "", false), &world());
    assert_eq!(asked, Vec::<String>::new());
    assert!(update.is_none());
}

#[test]
fn a_known_picture_is_not_fetched() {
    let (asked, update) = run(&account("7", "", true), &world());
    assert_eq!(asked, vec![PROFILE]);
    assert_eq!(parts(update), known(Some("Ann"), None));
    let cached = World { cached: true, ..world() };
    let (asked, update) = run(&account("7", "Bob", false), &cached);
    assert_eq!(asked, vec![PROFILE, "exists /c/7.jpg"]);
    assert_eq!(parts(update), known(None, Some("/c/7.jpg")));
}

#[test]
fn without_a_profile_nothing_becomes_known() {
    let (asked, update) = run(&account("7", "", false), &World { page: None, ..world() });
    assert_eq!(asked, vec![PROFILE]);
    assert!(update.is_none());
}

#[test]
fn a_picture_that_cannot_be_had_leaves_the_name() {
    let (asked, update) = run(&account("7", "", false), &World { picture: None, ..world() });
    assert_eq!(asked.len(), 3);
    assert_eq!(parts(update), known(Some("Ann"), None));
    let (asked, update) = run(&account("7", "", false), &World { storable: false, ..world() });
    assert_eq!(asked.len(), 4);
    assert_eq!(parts(update), known(Some("Ann"), None));
    let (_, update) = run(&account("7", "Bob", false), &World { storable: false, ..world() });
    assert!(update.is_none());
    let (asked, update) =
        run(&account("7", "", false), &World { page: Some("<steamID></steamID>"), ..world() });
    assert_eq!(asked, vec![PROFILE]);
    assert!(update.is_none());
}
