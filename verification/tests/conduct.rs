use dota_tools::conduct::{conduct_from_matches, parse_conduct_stats, ConductStats, Rgb, FULL_SCORE};

const SUMMARY: &str = "\
account_id: 12345
raw_behavior_score: 9870
behavior_rating: k_eBehaviorGood
commend_count: 17
reports_count: 2
matches_clean: 14
matches_abandoned: 0
comms_reports: 1
matches_in_report: 15
";

fn rated(rating: &str) -> ConductStats {
    let mut c = parse_conduct_stats("account_id:1").unwrap();
    c.behavior_rating = rating.to_string();
    c
}

fn scored(score: i32) -> ConductStats {
    let mut c = parse_conduct_stats("account_id:1").unwrap();
    c.behavior_score = score;
    c
}

fn groups(all: &[Option<&str>]) -> Vec<Option<String>> {
    all.iter().map(|g| g.map(|s| s.to_string())).collect()
}

#[test]
fn a_whole_summary_is_read() {
    let c = parse_conduct_stats(SUMMARY).unwrap();
    assert_eq!(c.account_id, "12345");
    assert_eq!(c.behavior_score, 9870);
    assert_eq!(c.behavior_rating, "k_eBehaviorGood");
    assert_eq!(c.commend_count, 17);
    assert_eq!(c.reports_count, 2);
    assert_eq!(c.matches_clean, 14);
    assert_eq!(c.matches_abandoned, 0);
    assert_eq!(c.comms_reports, 1);
    assert_eq!(c.matches_in_report, 15);
}

#[test]
fn a_summary_needs_an_account() {
    assert!(parse_conduct_stats("").is_none());
    assert!(parse_conduct_stats("commend_count: 3").is_none());
    assert!(parse_conduct_stats("account_id:").is_none());
    assert!(parse_conduct_stats("account_id: \n ").is_none());
    assert!(parse_conduct_stats("account_id : 5").is_none());
    assert!(parse_conduct_stats("xaccount_id: 5").is_none());
    assert!(parse_conduct_stats("x account_id: 5").is_some());
}

#[test]
fn the_last_entry_for_a_key_counts() {
    let c = parse_conduct_stats("account_id: 1 commend_count: 3 commend_count: 4 account_id: 2")
        .unwrap();
    assert_eq!(c.account_id, "2");
    assert_eq!(c.commend_count, 4);
}

#[test]
fn a_bad_number_counts_as_zero() {
    let c = parse_conduct_stats("account_id: 1 commend_count: 3 commend_count: many").unwrap();
    assert_eq!(c.commend_count, 0);
    let c = parse_conduct_stats("account_id: 1 raw_behavior_score: 99999999999").unwrap();
    assert_eq!(c.behavior_score, 0);
    let c = parse_conduct_stats("account_id: 1 reports_count: -4").unwrap();
    assert_eq!(c.reports_count, -4);
}

#[test]
fn a_value_runs_up_to_white_space() {
    let c = parse_conduct_stats("account_id:a:b,c\u{2003}commend_count:\u{a0}\n 8").unwrap();
    assert_eq!(c.account_id, "a:b,c");
    assert_eq!(c.commend_count, 8);
}

#[test]
fn a_value_swallows_what_looks_like_a_key() {
    assert!(parse_conduct_stats("x:account_id:5").is_none());
    assert!(parse_conduct_stats("éaccount_id: 5").is_none());
    assert!(parse_conduct_stats("-account_id: 5").is_some());
}

#[test]
fn an_entry_alone_is_read() {
    let c = parse_conduct_stats("account_id: 42").unwrap();
    assert_eq!(c.account_id, "42");
    assert_eq!(c.behavior_rating, "");
    assert_eq!(c.behavior_score, 0);
}

#[test]
fn a_summary_is_read_off_matches() {
    let matches = vec![
        groups(&[Some("account_id:9"), Some("account_id"), Some("9")]),
        groups(&[Some("behavior_rating: x"), Some("behavior_rating"), Some("x")]),
        groups(&[Some("whole")]),
        groups(&[Some("whole"), Some("behavior_rating"), None]),
    ];
    let c = conduct_from_matches(&matches).unwrap();
    assert_eq!(c.account_id, "9");
    assert_eq!(c.behavior_rating, "");
    assert!(conduct_from_matches(&vec![]).is_none());
}

#[test]
fn ratings_are_shown_in_words() {
    assert_eq!(rated("k_eBehaviorGood").rating_label(), "Good");
    assert_eq!(rated("k_eBehaviorNeutral").rating_label(), "Neutral");
    assert_eq!(rated("k_eBehaviorBad").rating_label(), "Bad");
    assert_eq!(rated("k_eBehaviorVerybad").rating_label(), "Very Bad");
    assert_eq!(rated("k_eBehaviorOdd").rating_label(), "k_eBehaviorOdd");
    assert_eq!(rated("").rating_label(), "Unknown");
}

#[test]
fn ratings_have_colours() {
    let color = |red, green, blue| Rgb { red, green, blue };
    assert_eq!(rated("k_eBehaviorGood").rating_color(), color(72, 199, 116));
    assert_eq!(rated("k_eBehaviorNeutral").rating_color(), color(220, 180, 50));
    assert_eq!(rated("k_eBehaviorBad").rating_color(), color(230, 80, 80));
    assert_eq!(rated("k_eBehaviorVerybad").rating_color(), color(180, 30, 30));
    assert_eq!(rated("k_eBehaviorOdd").rating_color(), color(140, 140, 140));
}

#[test]
fn the_score_bar_is_filled_as_by_division() {
    for score in [i32::MIN, -1, 0, 1, 6_000, 11_999, 12_000, 12_001, i32::MAX] {
        let whole = (score as f32 / 12_000.0).clamp(0.0, 1.0);
        let points = scored(score).score_points();
        assert_eq!(points as f32 / FULL_SCORE as f32, whole, "{}", score);
    }
    assert_eq!(scored(6_000).score_points(), 6_000);
    assert_eq!(scored(-250).score_text(), "-250");
}

#[test]
fn a_card_has_five_rows() {
    let rows = parse_conduct_stats(SUMMARY).unwrap().card_rows();
    let seen: Vec<(&str, &str, &str)> = rows
        .iter()
        .map(|r| (r.icon.as_str(), r.label.as_str(), r.value.as_str()))
        .collect();
    assert_eq!(
        seen,
        vec![
            ("★", "Commends", "17"),
            ("⚑", "Reports", "2"),
            ("✓", "Clean", "14"),
            ("✗", "Abandoned", "0"),
            ("✉", "Comms rep.", "1"),
        ]
    );
    assert_eq!(rows[0].color, Rgb { red: 255, green: 210, blue: 60 });
    assert_eq!(rows[1].color, Rgb { red: 230, green: 80, blue: 80 });
    assert_eq!(rows[2].color, Rgb { red: 72, green: 199, blue: 116 });
    assert_eq!(rows[3].color, Rgb { red: 220, green: 220, blue: 235 });
    assert_eq!(rows[4].color, Rgb { red: 230, green: 130, blue: 50 });
}

#[test]
fn unknown_keys_have_no_effect() {
    let plain = parse_conduct_stats("account_id: 1\ncommend_count: 3\n").unwrap();
    let more =
        parse_conduct_stats("x: 9\naccount_id: 1\ncommend_counts: 8\ncommend_count: 3\ny: k\n").unwrap();
    assert_eq!(format!("{:?}", plain), format!("{:?}", more));
}
