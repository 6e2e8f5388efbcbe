use dota_tools::locate::{avatar_cache_dir, find_steam_userdata, holds_userdata, userdata_places};
use dota_tools::path::{path_of, FsPath, Platform};

fn texts(paths: &[FsPath]) -> Vec<String> {
    paths.iter().map(|p| p.to_text()).collect()
}

#[test]
fn user_data_is_looked_for_at_home() {
    let home = Some(path_of(Platform::Other, "/", "home/me"));
    let places = userdata_places(Platform::Other, &None, &home);
    assert_eq!(
        texts(&places),
        vec![
            "/home/me/.steam/steam/userdata",
            "/home/me/.local/share/Steam/userdata",
            "/home/me/.steam/debian-installation/userdata",
        ]
    );
    assert_eq!(userdata_places(Platform::Other, &home, &None).len(), 0);
}

#[test]
fn user_data_is_looked_for_where_steam_is_installed() {
    let install = Some(path_of(Platform::Windows, "D:\\", "Steam"));
    let places = userdata_places(Platform::Windows, &install, &None);
    assert_eq!(
        texts(&places),
        vec![
            "D:\\Steam\\userdata",
            "C:\\Program Files (x86)\\Steam\\userdata",
            "C:\\Program Files\\Steam\\userdata",
        ]
    );
    assert_eq!(userdata_places(Platform::Windows, &None, &install).len(), 2);
}

#[test]
fn the_first_place_that_holds_it_is_taken() {
    let home = Some(path_of(Platform::Other, "/", "h"));
    let places = userdata_places(Platform::Other, &None, &home);
    let found = find_steam_userdata(&places, &vec![false, true, true]).unwrap();
    assert!(found.same_path(&places[1]));
    assert!(find_steam_userdata(&places, &vec![false, false, false]).is_none());
}

#[test]
fn elsewhere_than_on_windows_only_a_directory_will_do() {
    assert!(holds_userdata(Platform::Windows, true, false));
    assert!(!holds_userdata(Platform::Windows, false, false));
    assert!(!holds_userdata(Platform::Other, true, false));
    assert!(holds_userdata(Platform::Other, true, true));
}

#[test]
fn pictures_are_cached_below_the_cache() {
    let cache = Some(path_of(Platform::Other, "/", "c"));
    assert_eq!(avatar_cache_dir(Platform::Other, &cache).to_text(), "/c/dota_tools/avatars");
    let local = Some(path_of(Platform::Windows, "C:\\", "Local"));
    assert_eq!(
        avatar_cache_dir(Platform::Windows, &local).to_text(),
        "C:\\Local\\dota_tools/avatars"
    );
    assert_eq!(avatar_cache_dir(Platform::Other, &None).to_text(), "./dota_tools/avatars");
}
