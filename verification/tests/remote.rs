use dota_tools::account::SteamAccount;
use dota_tools::path::{path_of, FsPath, Platform};
use dota_tools::remote::{
    account_update, community_id, download_avatar, downloads_avatar, first_group_of, missing_of, profile_url,
    read_profile, wanted_avatar, Needs, RemoteAccountInfo,
};

fn picture() -> FsPath {
    path_of(Platform::Other, "/", "c/7.jpg")
}

fn info(name: Option<&str>, url: Option<&str>) -> RemoteAccountInfo {
    RemoteAccountInfo {
        persona_name: name.map(|s| s.to_string()),
        avatar_url: url.map(|s| s.to_string()),
    }
}

const BOTH: Needs = Needs { name: true, avatar: true };

#[test]
fn profiles_have_addresses() {
    assert_eq!(
        profile_url("39").unwrap(),
        "https://steamcommunity.com/profiles/76561197960265767?xml=1"
    );
    assert_eq!(profile_url("½"), None);
    assert_eq!(profile_url(""), None);
    assert_eq!(profile_url("18446744073709551616"), None);
    assert_eq!(community_id(0), 76_561_197_960_265_728);
    assert_eq!(community_id(u64::MAX - 76_561_197_960_265_728), u64::MAX);
}

#[test]
fn profile_pages_are_read() {
    let page = "<profile><steamID64>1</steamID64>\n<steamID><![CDATA[Ann [x]]]></steamID>\n\
                <avatarMedium><![CDATA[https://a/b_medium.jpg]]></avatarMedium></profile>";
    let r = read_profile(page);
    assert_eq!(r.persona_name.unwrap(), "Ann [x]");
    assert_eq!(r.avatar_url.unwrap(), "https://a/b_medium.jpg");
}

#[test]
fn elements_are_one_line_and_close_at_once() {
    let r = read_profile("<steamID><![CDATA[a\nb]]></steamID><avatarMedium><![CDATA[]]></avatarMedium>");
    assert_eq!(r.persona_name, None);
    assert_eq!(r.avatar_url.unwrap(), "");
    let r = read_profile("<steamID><![CDATA[a]]></steamID><steamID><![CDATA[b]]></steamID>");
    assert_eq!(r.persona_name.unwrap(), "a");
    let r = read_profile("<steamID><![CDATA[a\n<steamID><![CDATA[b\r]]></steamID>");
    assert_eq!(r.persona_name.unwrap(), "b\r");
    let r = read_profile("<steamID><![CDATA[<steamID><![CDATA[b]]></steamID>");
    assert_eq!(r.persona_name.unwrap(), "<steamID><![CDATA[b");
    assert_eq!(r.avatar_url, None);
}

#[test]
fn groups_are_read_off_a_match() {
    let group = |s: &str| Some(s.to_string());
    assert_eq!(first_group_of(&Some(vec![group("x"), group("y")])), group("y"));
    assert_eq!(first_group_of(&Some(vec![group("x")])), None);
    assert_eq!(first_group_of(&None), None);
}

#[test]
fn what_is_missing_is_known() {
    let mut a = SteamAccount {
        id: "7".to_string(),
        persona_name: String::new(),
        avatar_path: None,
        conduct: None,
    };
    assert_eq!(missing_of(&a), BOTH);
    a.persona_name = "Ann".to_string();
    assert_eq!(missing_of(&a), Needs { name: false, avatar: true });
    a.avatar_path = Some(picture());
    assert!(!missing_of(&a).any());
    assert!(BOTH.any());
}

#[test]
fn a_picture_is_fetched_where_it_is_missing() {
    let with = info(None, Some("u"));
    assert_eq!(wanted_avatar(BOTH, &with), Some("u".to_string()));
    assert_eq!(wanted_avatar(Needs { name: true, avatar: false }, &with), None);
    assert_eq!(wanted_avatar(BOTH, &info(None, None)), None);
    assert!(downloads_avatar(false));
    assert!(!downloads_avatar(true));
    assert!(download_avatar(picture(), true, false).unwrap().same_path(&picture()));
    assert!(download_avatar(picture(), false, true).unwrap().same_path(&picture()));
    assert!(download_avatar(picture(), false, false).is_none());
}

#[test]
fn updates_fill_in_what_is_missing() {
    let u = account_update("7", BOTH, info(Some("Ann"), Some("u")), Some(picture())).unwrap();
    assert_eq!(u.id, "7");
    assert_eq!(u.persona_name.unwrap(), "Ann");
    assert_eq!(u.avatar_path.unwrap().to_text(), "/c/7.jpg");
    let name_known = Needs { name: false, avatar: true };
    let u = account_update("7", name_known, info(Some("Ann"), Some("u")), Some(picture()));
    assert_eq!(u.unwrap().persona_name, None);
    assert!(account_update("7", name_known, info(Some("Ann"), Some("u")), None).is_none());
    assert!(account_update("7", BOTH, info(Some(""), None), None).is_none());
    assert!(account_update("7", BOTH, info(None, None), Some(picture())).is_none());
    let nothing = Needs { name: false, avatar: false };
    let all = info(Some("Ann"), Some("u"));
    assert!(account_update("7", nothing, all, Some(picture())).is_none());
}
