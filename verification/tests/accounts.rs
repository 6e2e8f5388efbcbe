use dota_tools::account::{
    account_ids, apply_update, avatar_file, cached_avatar_path, conduct_file, copy_accounts,
    get_account_info_local, is_account_name, local_config_file, name_from_match, read_account,
    read_conduct_stats, visible_accounts, AccountFiles, AccountUpdate, SteamAccount,
    UserdataEntry,
};
use dota_tools::account_order::{get_accounts, sort_accounts};
use dota_tools::path::{path_of, FsPath, Platform};

fn dir(names: &[&str]) -> FsPath {
    path_of(Platform::Other, "/", &names.join("/"))
}

fn account(id: &str, name: &str) -> SteamAccount {
    SteamAccount {
        id: id.to_string(),
        persona_name: name.to_string(),
        avatar_path: None,
        conduct: None,
    }
}

fn files(config: Option<&str>, cached: bool, conduct: Option<&str>) -> AccountFiles {
    AccountFiles {
        local_config: config.map(|s| s.to_string()),
        avatar_cached: cached,
        conduct: conduct.map(|s| s.to_string()),
    }
}

fn update(id: &str, name: Option<&str>, avatar: Option<FsPath>) -> AccountUpdate {
    AccountUpdate {
        id: id.to_string(),
        persona_name: name.map(|s| s.to_string()),
        avatar_path: avatar,
    }
}

fn ids(accounts: &[SteamAccount]) -> Vec<&str> {
    accounts.iter().map(|a| a.id.as_str()).collect()
}

#[test]
fn accounts_are_shown_by_name_and_number() {
    assert_eq!(account("7", "Ann").display_name(), "Ann (7)");
    assert_eq!(account("7", "").display_name(), "7");
}

#[test]
fn pictures_have_addresses() {
    let mut a = account("7", "");
    assert_eq!(a.avatar_uri(), None);
    a.avatar_path = Some(dir(&["c", "7.jpg"]));
    assert_eq!(a.avatar_uri().unwrap(), "file:///c/7.jpg");
    a.avatar_path = Some(path_of(Platform::Windows, "C:\\", "c\\7.jpg"));
    assert_eq!(a.avatar_uri().unwrap(), "file://C:\\c\\7.jpg");
}

#[test]
fn searches_do_not_mind_the_case() {
    let all = vec![account("70", "Ärger"), account("8", ""), account("9", "Bob")];
    assert_eq!(visible_accounts(&all, ""), vec![0, 1, 2]);
    assert_eq!(visible_accounts(&all, "ÄRG"), vec![0]);
    assert_eq!(visible_accounts(&all, "(9"), vec![2]);
    assert_eq!(visible_accounts(&all, "8"), vec![1]);
    assert_eq!(visible_accounts(&all, "b (9)"), vec![2]);
    assert_eq!(visible_accounts(&all, "nobody"), Vec::<usize>::new());
    for (i, a) in all.iter().enumerate() {
        assert!(visible_accounts(&all, &a.display_name()).contains(&i));
    }
}

#[test]
fn numbers_name_accounts() {
    assert!(is_account_name("12345"));
    assert!(is_account_name("00"));
    assert!(is_account_name("½"));
    assert!(!is_account_name("0"));
    assert!(!is_account_name("12a"));
    assert!(!is_account_name("ac"));
    assert!(!is_account_name("-1"));
}

#[test]
fn account_directories_are_picked_out() {
    let entry = |name: &str, is_dir: bool| UserdataEntry { name: name.to_string(), is_dir };
    let entries = vec![
        entry("22", true),
        entry("0", true),
        entry("33", false),
        entry("anonymous", true),
        entry("11", true),
    ];
    assert_eq!(account_ids(&entries), vec!["22", "11"]);
}

#[test]
fn the_local_name_is_the_first_entry() {
    let config = "\"friends\"\n{\n\t\"PersonaName\"\t\t\"Ann \u{2764}\"\n\t\"PersonaName\" \"Bob\"\n}";
    assert_eq!(get_account_info_local(&Some(config.to_string())), "Ann \u{2764}");
    assert_eq!(get_account_info_local(&Some("\"PersonaName\" \"\"".to_string())), "");
    assert_eq!(get_account_info_local(&Some("\"personaname\" \"x\"".to_string())), "");
    assert_eq!(
        get_account_info_local(&Some("\"PersonaName\" x \"PersonaName\"\n\n\"y\"".to_string())),
        "y"
    );
    assert_eq!(get_account_info_local(&None), "");
}

#[test]
fn names_are_read_off_a_match() {
    let group = |s: &str| Some(s.to_string());
    assert_eq!(name_from_match(&Some(vec![group("x"), group("Ann")])), "Ann");
    assert_eq!(name_from_match(&Some(vec![group("x"), None])), "");
    assert_eq!(name_from_match(&Some(vec![])), "");
    assert_eq!(name_from_match(&None), "");
}

#[test]
fn the_files_of_an_account_have_their_places() {
    let text = |p: FsPath| p.to_text();
    assert_eq!(text(avatar_file(&dir(&["c"]), "7")), "/c/7.jpg");
    assert_eq!(text(local_config_file(&dir(&["u"]), "7")), "/u/7/config/localconfig.vdf");
    assert_eq!(text(conduct_file(&dir(&["d"]), "7")), "/d/latest_conduct_1.7.txt");
    assert_eq!(text(cached_avatar_path(&dir(&["c"]), "7", true).unwrap()), "/c/7.jpg");
    assert!(cached_avatar_path(&dir(&["c"]), "7", false).is_none());
}

#[test]
fn an_account_is_read_from_its_files() {
    let f = files(Some("\"PersonaName\" \"Ann\""), true, Some("account_id: 7 commend_count: 2"));
    let a = read_account("7", &f, &dir(&["c"]));
    assert_eq!(a.id, "7");
    assert_eq!(a.persona_name, "Ann");
    assert_eq!(a.avatar_uri().unwrap(), "file:///c/7.jpg");
    assert_eq!(a.conduct.unwrap().commend_count, 2);
    let a = read_account("7", &files(None, false, Some("nothing")), &dir(&["c"]));
    assert_eq!(a.persona_name, "");
    assert!(a.avatar_path.is_none());
    assert!(a.conduct.is_none());
    assert!(read_conduct_stats(&None).is_none());
}

#[test]
fn accounts_are_ordered_by_name_or_number() {
    let all = vec![
        account("30", "bob"),
        account("10", ""),
        account("20", "Ann"),
        account("40", "BOB"),
        account("50", "ann"),
    ];
    let sorted = sort_accounts(copy_accounts(&all));
    assert_eq!(ids(&sorted), vec!["10", "20", "50", "30", "40"]);
    let again = sort_accounts(copy_accounts(&sorted));
    assert_eq!(ids(&again), ids(&sorted));
}

#[test]
fn accounts_are_read_and_ordered() {
    let numbers = vec!["2".to_string(), "1".to_string()];
    let all = vec![
        files(Some("\"PersonaName\" \"Zed\""), false, None),
        files(Some("\"PersonaName\" \"amy\""), false, None),
    ];
    let accounts = get_accounts(&numbers, &all, &dir(&["c"]));
    assert_eq!(ids(&accounts), vec!["1", "2"]);
    assert_eq!(accounts[0].persona_name, "amy");
    assert_eq!(get_accounts(&vec![], &vec![], &dir(&["c"])).len(), 0);
}

#[test]
fn an_update_changes_its_account_alone() {
    let mut all = vec![account("1", "Ann"), account("2", ""), account("2", "Late")];
    assert!(apply_update(&mut all, update("2", Some("Bob"), None)));
    assert_eq!(all[0].persona_name, "Ann");
    assert_eq!(all[1].persona_name, "Bob");
    assert_eq!(all[2].persona_name, "Late");
    assert!(apply_update(&mut all, update("2", None, Some(dir(&["p"])))));
    assert_eq!(all[1].persona_name, "Bob");
    assert!(all[1].avatar_path.is_some());
    assert!(!apply_update(&mut all, update("3", Some("x"), None)));
    assert_eq!(ids(&all), vec!["1", "2", "2"]);
}
