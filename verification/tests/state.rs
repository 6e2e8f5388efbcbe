use dota_tools::account::{AccountUpdate, SteamAccount};
use dota_tools::conduct::parse_conduct_stats;
use dota_tools::copy::CopyReply;
use dota_tools::path::{path_of, FsPath, Platform};
use dota_tools::state::{
    closes_list, selection_avatar, selection_card, selection_text, AvatarSlot, Card, DotaToolsApp,
    MainPanel, Notices, Repaint, Side,
};

fn account(id: &str, name: &str) -> SteamAccount {
    SteamAccount {
        id: id.to_string(),
        persona_name: name.to_string(),
        avatar_path: None,
        conduct: None,
    }
}

fn userdata() -> Option<FsPath> {
    Some(path_of(Platform::Other, "/", "u"))
}

fn tool() -> DotaToolsApp {
    DotaToolsApp::new(userdata(), None, vec![account("1", "Ann"), account("2", "Bob")])
}

fn named(id: &str, name: &str) -> AccountUpdate {
    AccountUpdate { id: id.to_string(), persona_name: Some(name.to_string()), avatar_path: None }
}

#[test]
fn the_tool_starts_ready() {
    let app = tool();
    assert_eq!(app.status_message, "Ready");
    assert_eq!(app.accounts.len(), 2);
    assert_eq!(app.main_panel(), MainPanel::Columns);
    assert_eq!(app.notices(), Notices { fetching: true, dota_missing: true });
    assert_eq!(app.selected(Side::Source), None);
    assert_eq!(app.selected(Side::Target), None);
}

#[test]
fn without_user_data_there_are_no_accounts() {
    let app = DotaToolsApp::new(None, userdata(), vec![account("1", "Ann")]);
    assert_eq!(app.status_message, "Steam userdata not found!");
    assert_eq!(app.accounts.len(), 0);
    assert_eq!(app.main_panel(), MainPanel::NoAccounts);
    assert_eq!(app.notices(), Notices { fetching: false, dota_missing: true });
    let app = DotaToolsApp::new(userdata(), userdata(), vec![]);
    assert_eq!(app.notices(), Notices { fetching: false, dota_missing: false });
    let mut loading = tool();
    loading.loading = true;
    assert_eq!(loading.main_panel(), MainPanel::Loading);
}

#[test]
fn updates_are_awaited_and_applied() {
    let mut app = tool();
    app.updates_pending = false;
    assert_eq!(
        app.apply_account_updates(vec![named("1", "Eve")], false),
        Repaint { now: false, later: false }
    );
    assert_eq!(app.accounts[0].persona_name, "Ann");
    let wanted = app.spawn_account_updates();
    assert_eq!(wanted.iter().map(|a| a.id.as_str()).collect::<Vec<_>>(), vec!["1", "2"]);
    assert!(app.notices().fetching);
    assert_eq!(
        app.apply_account_updates(vec![named("1", "Eve"), named("1", "Zoe")], false),
        Repaint { now: true, later: true }
    );
    assert_eq!(app.accounts[0].persona_name, "Zoe");
    assert_eq!(
        app.apply_account_updates(vec![named("9", "x")], false),
        Repaint { now: false, later: true }
    );
    assert_eq!(
        app.apply_account_updates(vec![named("2", "Max")], true),
        Repaint { now: true, later: false }
    );
    assert!(!app.notices().fetching);
    assert_eq!(app.accounts[1].persona_name, "Max");
}

#[test]
fn at_the_start_updates_are_awaited_where_there_are_accounts() {
    assert!(tool().updates_pending);
    let mut app = DotaToolsApp::new(userdata(), None, vec![]);
    assert!(!app.updates_pending);
    assert!(!DotaToolsApp::new(None, None, vec![account("1", "Ann")]).updates_pending);
    assert_eq!(app.spawn_account_updates().len(), 0);
    assert!(app.updates_pending);
}

#[test]
fn a_selection_says_whether_it_changed() {
    let mut app = tool();
    assert!(app.select(Side::Source, 1));
    assert!(!app.select(Side::Source, 1));
    assert!(app.select(Side::Source, 0));
    assert!(app.select(Side::Target, 0));
    assert_eq!((app.selected(Side::Source), app.selected(Side::Target)), (Some(0), Some(0)));
}

#[test]
fn a_missing_source_is_told() {
    let mut app = tool();
    app.select(Side::Source, 0);
    app.select(Side::Target, 1);
    let request = app.copy_clicked().unwrap();
    let mut job = request.begin();
    job.reply(CopyReply::Exists(false));
    let quoted = format!("{:?}", job.source.to_text());
    let error = job.outcome().unwrap().err().map(|e| e.text(&quoted));
    app.copy_finished(&request, &error);
    assert_eq!(
        app.status_message,
        "✗ Error: Source config directory not found: \"/u/1/570/remote/cfg\""
    );
}

#[test]
fn a_copy_needs_two_selections() {
    let mut app = tool();
    assert!(app.copy_clicked().is_none());
    assert_eq!(app.status_message, "Please select both Source and Target accounts.");
    app.select(Side::Source, 1);
    app.status_message = String::new();
    assert!(app.copy_clicked().is_none());
    assert_eq!(app.status_message, "Please select both Source and Target accounts.");
}

#[test]
fn a_copy_needs_two_accounts() {
    let mut app = tool();
    app.select(Side::Source, 1);
    app.select(Side::Target, 1);
    assert!(app.copy_clicked().is_none());
    assert_eq!(app.status_message, "⚠ Source and Target are the same account.");
}

#[test]
fn a_copy_is_asked_for_and_reported() {
    let mut app = tool();
    app.select(Side::Source, 1);
    app.select(Side::Target, 0);
    assert_eq!(app.selected(Side::Source), Some(1));
    let request = app.copy_clicked().unwrap();
    assert_eq!(app.status_message, "Ready");
    assert_eq!((request.source_id.as_str(), request.target_id.as_str()), ("2", "1"));
    let job = request.begin();
    assert_eq!(job.source.to_text(), "/u/2/570/remote/cfg");
    assert_eq!(job.target.to_text(), "/u/1/570/remote/cfg");
    app.copy_finished(&request, &None);
    assert_eq!(app.status_message, "✓ Copied from Bob → Ann");
    app.copy_finished(&request, &Some("disk full".to_string()));
    assert_eq!(app.status_message, "✗ Error: disk full");
}

#[test]
fn without_user_data_path_nothing_is_copied() {
    let mut app = tool();
    app.steam_userdata_path = None;
    app.select(Side::Source, 0);
    app.select(Side::Target, 1);
    assert!(app.copy_clicked().is_none());
    assert_eq!(app.status_message, "Ready");
}

#[test]
fn selections_are_shown() {
    let mut app = tool();
    assert_eq!(selection_text(&app.accounts, None), "Select account…");
    assert_eq!(selection_text(&app.accounts, Some(0)), "Ann (1)");
    assert!(matches!(selection_card(&app.accounts, None), Card::Placeholder));
    assert!(matches!(selection_card(&app.accounts, Some(0)), Card::NoConduct));
    assert!(matches!(selection_avatar(&app.accounts, None), AvatarSlot::Blank));
    assert!(matches!(
        selection_avatar(&app.accounts, Some(0)),
        AvatarSlot::Unknown
    ));
    app.accounts[0].conduct = parse_conduct_stats("account_id: 1 commend_count: 4");
    app.accounts[0].avatar_path = Some(path_of(Platform::Other, "/", "a.jpg"));
    match selection_card(&app.accounts, Some(0)) {
        Card::Conduct(c) => assert_eq!(c.commend_count, 4),
        other => panic!("{:?}", other),
    }
    match selection_avatar(&app.accounts, Some(0)) {
        AvatarSlot::Picture(uri) => assert_eq!(uri, "file:///a.jpg"),
        other => panic!("{:?}", other),
    }
}

#[test]
fn a_press_elsewhere_closes_the_list() {
    assert!(closes_list(true, true, false, false));
    assert!(!closes_list(false, true, false, false));
    assert!(!closes_list(true, false, false, false));
    assert!(!closes_list(true, true, true, false));
    assert!(!closes_list(true, true, false, true));
}
