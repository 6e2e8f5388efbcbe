use dota_tools::copy::{
    copy_dota_config, settings_directory, source_missing_text, CopyAction, CopyError, CopyJob,
    CopyReply,
};
use dota_tools::path::{path_of, FsPath, Platform};

fn base() -> FsPath {
    path_of(Platform::Other, "/", "u")
}

fn text(p: &FsPath) -> String {
    p.to_text()
}

fn name_of(action: &CopyAction) -> String {
    match action {
        CopyAction::Exists(p) => format!("exists {}", text(p)),
        CopyAction::MakeDir(p) => format!("make {}", text(p)),
        CopyAction::OpenDir(p) => format!("open {}", text(p)),
        CopyAction::NextEntry => "next".to_string(),
        CopyAction::CopyFile(from, to) => format!("copy {} {}", text(from), text(to)),
    }
}

/// Gives the replies one after the other, and returns the actions asked for.
fn run(job: &mut CopyJob, replies: Vec<CopyReply>) -> Vec<String> {
    let mut actions = Vec::new();
    for reply in replies {
        actions.push(name_of(&job.action().unwrap()));
        job.reply(reply);
    }
    actions
}

fn entry(name: &str, is_file: bool) -> CopyReply {
    CopyReply::Entry(name.to_string(), is_file)
}

#[test]
fn settings_lie_below_the_account() {
    assert_eq!(text(&settings_directory(&base(), "7")), "/u/7/570/remote/cfg");
    let windows = path_of(Platform::Windows, "C:\\", "u");
    assert_eq!(text(&settings_directory(&windows, "1")), "C:\\u\\1\\570/remote/cfg");
    assert_eq!(text(&settings_directory(&base(), "/x")), "/x/570/remote/cfg");
    assert_eq!(text(&settings_directory(&base(), "a/./b")), "/u/a/./b/570/remote/cfg");
}

#[test]
fn every_file_is_copied_and_nothing_else() {
    let mut job = copy_dota_config(&base(), "1", "2");
    let actions = run(
        &mut job,
        vec![
            CopyReply::Exists(true),
            CopyReply::Exists(false),
            CopyReply::Done,
            CopyReply::Done,
            entry("a.cfg", true),
            CopyReply::Done,
            entry("sub", false),
            entry("b.cfg", true),
            CopyReply::Done,
            CopyReply::End,
        ],
    );
    assert_eq!(
        actions,
        vec![
            "exists /u/1/570/remote/cfg",
            "exists /u/2/570/remote/cfg",
            "make /u/2/570/remote/cfg",
            "open /u/1/570/remote/cfg",
            "next",
            "copy /u/1/570/remote/cfg/a.cfg /u/2/570/remote/cfg/a.cfg",
            "next",
            "next",
            "copy /u/1/570/remote/cfg/b.cfg /u/2/570/remote/cfg/b.cfg",
            "next",
        ]
    );
    assert!(job.action().is_none());
    assert!(matches!(job.outcome(), Some(Ok(()))));
}

#[test]
fn an_existing_target_is_not_made() {
    let mut job = copy_dota_config(&base(), "1", "2");
    run(&mut job, vec![CopyReply::Exists(true), CopyReply::Exists(true)]);
    assert_eq!(name_of(&job.action().unwrap()), "open /u/1/570/remote/cfg");
    assert!(job.outcome().is_none());
}

#[test]
fn a_missing_source_is_an_error() {
    let mut job = copy_dota_config(&base(), "1", "2");
    run(&mut job, vec![CopyReply::Exists(false)]);
    assert!(job.action().is_none());
    match job.outcome() {
        Some(Err(CopyError::SourceMissing(p))) => assert_eq!(text(&p), "/u/1/570/remote/cfg"),
        other => panic!("{:?}", other),
    }
}

#[test]
fn errors_are_put_in_words() {
    let quoted = format!("{:?}", "/u/1/570/remote/cfg");
    let words = "Source config directory not found: \"/u/1/570/remote/cfg\"";
    assert_eq!(source_missing_text(&quoted), words);
    assert_eq!(CopyError::SourceMissing(base()).text(&quoted), words);
    assert_eq!(CopyError::Failed("no".to_string()).text(&quoted), "no");
}

#[test]
fn a_failed_action_ends_the_copy() {
    let opening = || vec![CopyReply::Exists(true), CopyReply::Exists(false)];
    let further: Vec<Vec<CopyReply>> = vec![
        vec![],
        vec![CopyReply::Done],
        vec![CopyReply::Done, CopyReply::Done],
        vec![CopyReply::Done, CopyReply::Done, entry("a", true)],
    ];
    for more in further {
        let mut job = copy_dota_config(&base(), "1", "2");
        run(&mut job, opening());
        run(&mut job, more);
        run(&mut job, vec![CopyReply::Failed("no".to_string())]);
        assert!(job.action().is_none());
        match job.outcome() {
            Some(Err(CopyError::Failed(e))) => assert_eq!(e, "no"),
            other => panic!("{:?}", other),
        }
    }
}
