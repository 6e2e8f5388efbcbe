//! Conduct summaries: how an account behaved in its recent matches.

use vstd::prelude::*;
use vstd::string::*;

use crate::numbers::{i32_text, i32_value, parse_i32, signed_decimal};
use crate::pattern::{all_matches, all_matches_are_determined, each_is_a_match, entry_at, find_all, found_all, get_group, group, is_space, is_word, leftmost_match, match_at, Groups, GroupsView, CONDUCT_PATTERN};
use crate::text::same_text;

verus! {

/// A conduct summary.
#[derive(Debug, Clone)]
pub struct ConductStats {
    pub account_id: String,
    pub behavior_score: i32,
    pub behavior_rating: String,
    pub commend_count: i32,
    pub reports_count: i32,
    pub matches_clean: i32,
    pub matches_abandoned: i32,
    pub comms_reports: i32,
    pub matches_in_report: i32,
}

/// What a conduct summary says.
#[verifier::ext_equal]
pub struct ConductView {
    pub account_id: Seq<char>,
    pub behavior_score: i32,
    pub behavior_rating: Seq<char>,
    pub commend_count: i32,
    pub reports_count: i32,
    pub matches_clean: i32,
    pub matches_abandoned: i32,
    pub comms_reports: i32,
    pub matches_in_report: i32,
}

impl View for ConductStats {
    type V = ConductView;

    open spec fn view(&self) -> ConductView {
        ConductView {
            account_id: self.account_id@,
            behavior_score: self.behavior_score,
            behavior_rating: self.behavior_rating@,
            commend_count: self.commend_count,
            reports_count: self.reports_count,
            matches_clean: self.matches_clean,
            matches_abandoned: self.matches_abandoned,
            comms_reports: self.comms_reports,
            matches_in_report: self.matches_in_report,
        }
    }
}

impl DeepView for ConductStats {
    type V = ConductView;

    open spec fn deep_view(&self) -> ConductView {
        self@
    }
}

impl Default for ConductStats {
    /// The summary in which nothing is said.
    fn default() -> (r: ConductStats)
        ensures
            r@ == (ConductView {
                account_id: Seq::empty(),
                behavior_score: 0,
                behavior_rating: Seq::empty(),
                commend_count: 0,
                reports_count: 0,
                matches_clean: 0,
                matches_abandoned: 0,
                comms_reports: 0,
                matches_in_report: 0,
            }),
    {
        ConductStats {
            account_id: String::new(),
            behavior_score: 0,
            behavior_rating: String::new(),
            commend_count: 0,
            reports_count: 0,
            matches_clean: 0,
            matches_abandoned: 0,
            comms_reports: 0,
            matches_in_report: 0,
        }
    }
}

/// The key of a match: its first group, or nothing.
pub open spec fn key_of(groups: GroupsView) -> Seq<char> {
    group(groups, 1).unwrap_or(Seq::empty())
}

/// The value of a match: its second group, or nothing.
pub open spec fn value_of(groups: GroupsView) -> Seq<char> {
    group(groups, 2).unwrap_or(Seq::empty())
}

/// The value that the matches give a key: that of the last match with the key.
pub open spec fn last_value(matches: Seq<GroupsView>, key: Seq<char>) -> Option<Seq<char>>
    decreases matches.len(),
{
    if matches.len() == 0 {
        None
    } else if key_of(matches.last()) == key {
        Some(value_of(matches.last()))
    } else {
        last_value(matches.drop_last(), key)
    }
}

/// The text that the matches give a key; empty where the key is missing.
pub open spec fn text_entry(matches: Seq<GroupsView>, key: Seq<char>) -> Seq<char> {
    last_value(matches, key).unwrap_or(Seq::empty())
}

/// The number that the matches give a key; zero where the key is missing or
/// its value is not an `i32` in decimal.
pub open spec fn number_entry(matches: Seq<GroupsView>, key: Seq<char>) -> i32 {
    match last_value(matches, key) {
        Some(v) => i32_value(v).unwrap_or(0),
        None => 0,
    }
}

/// The summary whose entries are those that the matches give.
pub open spec fn conduct_entries(matches: Seq<GroupsView>) -> ConductView {
    ConductView {
        account_id: text_entry(matches, "account_id"@),
        behavior_score: number_entry(matches, "raw_behavior_score"@),
        behavior_rating: text_entry(matches, "behavior_rating"@),
        commend_count: number_entry(matches, "commend_count"@),
        reports_count: number_entry(matches, "reports_count"@),
        matches_clean: number_entry(matches, "matches_clean"@),
        matches_abandoned: number_entry(matches, "matches_abandoned"@),
        comms_reports: number_entry(matches, "comms_reports"@),
        matches_in_report: number_entry(matches, "matches_in_report"@),
    }
}

/// The summary that the matches give; none where they name no account.
pub open spec fn conduct_of(matches: Seq<GroupsView>) -> Option<ConductView> {
    if text_entry(matches, "account_id"@).len() == 0 {
        None
    } else {
        Some(conduct_entries(matches))
    }
}

/// The number after one more match: the value where the key is the asked one,
/// and what it was before otherwise.
fn next_number(key: &str, value: &str, asked: &str, before: i32) -> (r: i32)
    ensures
        r == (if key@ == asked@ {
            i32_value(value@).unwrap_or(0)
        } else {
            before
        }),
{
    if same_text(key, asked) {
        match parse_i32(value) {
            Some(n) => n,
            None => 0,
        }
    } else {
        before
    }
}

/// The text after one more match, in the same way.
fn next_text(key: &str, value: &str, asked: &str, before: String) -> (r: String)
    ensures
        r@ == (if key@ == asked@ {
            value@
        } else {
            before@
        }),
{
    if same_text(key, asked) {
        value.to_string()
    } else {
        before
    }
}

fn group_text(groups: &Groups, i: usize) -> (r: String)
    ensures
        r@ == group(groups.deep_view(), i as int).unwrap_or(Seq::empty()),
{
    match get_group(groups, i) {
        Some(s) => s,
        None => String::new(),
    }
}

impl ConductStats {
    /// The summary after one more match.
    fn with_entry(self, key: &str, value: &str) -> (r: ConductStats)
        ensures
            r@ == self@.with_entry(key@, value@),
    {
        ConductStats {
            account_id: next_text(key, value, "account_id", self.account_id),
            behavior_score: next_number(key, value, "raw_behavior_score", self.behavior_score),
            behavior_rating: next_text(key, value, "behavior_rating", self.behavior_rating),
            commend_count: next_number(key, value, "commend_count", self.commend_count),
            reports_count: next_number(key, value, "reports_count", self.reports_count),
            matches_clean: next_number(key, value, "matches_clean", self.matches_clean),
            matches_abandoned: next_number(key, value, "matches_abandoned", self.matches_abandoned),
            comms_reports: next_number(key, value, "comms_reports", self.comms_reports),
            matches_in_report: next_number(key, value, "matches_in_report", self.matches_in_report),
        }
    }
}

impl ConductView {
    spec fn with_entry(self, key: Seq<char>, value: Seq<char>) -> ConductView {
        let number = |asked: Seq<char>, before: i32|
            if key == asked {
                i32_value(value).unwrap_or(0)
            } else {
                before
            };
        ConductView {
            account_id: if key == "account_id"@ { value } else { self.account_id },
            behavior_score: number("raw_behavior_score"@, self.behavior_score),
            behavior_rating: if key == "behavior_rating"@ { value } else { self.behavior_rating },
            commend_count: number("commend_count"@, self.commend_count),
            reports_count: number("reports_count"@, self.reports_count),
            matches_clean: number("matches_clean"@, self.matches_clean),
            matches_abandoned: number("matches_abandoned"@, self.matches_abandoned),
            comms_reports: number("comms_reports"@, self.comms_reports),
            matches_in_report: number("matches_in_report"@, self.matches_in_report),
        }
    }
}

proof fn lemma_with_entry(matches: Seq<GroupsView>)
    requires
        matches.len() > 0,
    ensures
        conduct_entries(matches) == conduct_entries(matches.drop_last()).with_entry(
            key_of(matches.last()),
            value_of(matches.last()),
        ),
{
}

/// Reads a summary off the matches of the conduct pattern: each entry is the
/// value of the last match with its key. There is none without an account.
pub fn conduct_from_matches(matches: &Vec<Groups>) -> (r: Option<ConductStats>)
    ensures
        r.deep_view() == conduct_of(matches.deep_view()),
{
    let mut s: ConductStats = ConductStats::default();
    let mut i: usize = 0;
    while i < matches.len()
        invariant
            i <= matches.len(),
            s@ == conduct_entries(matches.deep_view().take(i as int)),
        decreases matches.len() - i,
    {
        let key: String = group_text(&matches[i], 1);
        let value: String = group_text(&matches[i], 2);
        proof {
            let now = matches.deep_view().take(i + 1);
            assert(now.drop_last() == matches.deep_view().take(i as int));
            assert(now.last() == matches[i as int].deep_view());
            lemma_with_entry(now);
        }
        s = s.with_entry(key.as_str(), value.as_str());
        i += 1;
    }
    assert(matches.deep_view().take(i as int) == matches.deep_view());
    if s.account_id.as_str().is_empty() {
        None
    } else {
        Some(s)
    }
}

/// Whether some match has the key.
pub open spec fn has_key(matches: Seq<GroupsView>, key: Seq<char>) -> bool {
    exists|i: int| 0 <= i < matches.len() && key_of(#[trigger] matches[i]) == key
}

proof fn lemma_last_value(matches: Seq<GroupsView>, key: Seq<char>)
    requires
        forall|i: int| 0 <= i < matches.len() ==> value_of(#[trigger] matches[i]).len() > 0,
    ensures
        last_value(matches, key) is Some <==> has_key(matches, key),
        last_value(matches, key) is Some ==> last_value(matches, key)->0.len() > 0,
    decreases matches.len(),
{
    if matches.len() > 0 {
        let rest = matches.drop_last();
        assert forall|i: int| 0 <= i < rest.len() implies value_of(#[trigger] rest[i]).len()
            > 0 by {
            assert(rest[i] == matches[i]);
        }
        lemma_last_value(rest, key);
        assert(matches.last() == matches[matches.len() - 1]);
        if has_key(rest, key) {
            let i = choose|i: int| 0 <= i < rest.len() && key_of(#[trigger] rest[i]) == key;
            assert(key_of(matches[i]) == key);
        }
        if has_key(matches, key) && key_of(matches.last()) != key {
            let i = choose|i: int| 0 <= i < matches.len() && key_of(#[trigger] matches[i]) == key;
            assert(key_of(rest[i]) == key);
        }
    }
}

/// Reads a conduct summary: every piece of the text that matches the conduct
/// pattern is a key and its value. There is a summary exactly when the text
/// has an entry for the account.
pub fn parse_conduct_stats(content: &str) -> (r: Option<ConductStats>)
    ensures
        r.deep_view() == conduct_of(found_all(CONDUCT_PATTERN@, content@)),
        r is Some <==> has_key(found_all(CONDUCT_PATTERN@, content@), "account_id"@),
{
    let matches: Vec<Groups> = find_all(CONDUCT_PATTERN, content);
    proof {
        let m = matches.deep_view();
        let t = content@;
        assert forall|i: int| 0 <= i < m.len() implies value_of(#[trigger] m[i]).len() > 0 by {
            each_is_a_match(CONDUCT_PATTERN@, t, 0, m, i);
            let (s, e) = choose|s: int, e: int| #[trigger]
                match_at(CONDUCT_PATTERN@, t, s, e, m[i]);
            let (c, v) = choose|c: int, v: int| #[trigger]
                entry_at(t, s, c, v, e) && m[i] == seq![
                    Some(t.subrange(s, e)),
                    Some(t.subrange(s, c)),
                    Some(t.subrange(v, e)),
                ];
            assert(value_of(m[i]) == t.subrange(v, e));
        }
        lemma_last_value(m, "account_id"@);
    }
    conduct_from_matches(&matches)
}

/// Whether a key and a value are such as a summary holds: a word, and a text
/// without white space.
pub open spec fn is_entry(key: Seq<char>, value: Seq<char>) -> bool {
    &&& key.len() > 0
    &&& forall|i: int| 0 <= i < key.len() ==> is_word(#[trigger] key[i])
    &&& value.len() > 0
    &&& forall|i: int| 0 <= i < value.len() ==> !is_space(#[trigger] value[i])
}

/// A text that is one key, a colon, a space and one value is read as that key
/// with that value.
pub proof fn entry_is_read(key: Seq<char>, value: Seq<char>)
    requires
        is_entry(key, value),
    ensures
        ({
            let text = key + seq![':', ' '] + value;
            &&& found_all(CONDUCT_PATTERN@, text).len() == 1
            &&& last_value(found_all(CONDUCT_PATTERN@, text), key) == Some(value)
            &&& forall|other: Seq<char>|
                other != key ==> #[trigger] last_value(found_all(CONDUCT_PATTERN@, text), other)
                    is None
        }),
{
    let p = CONDUCT_PATTERN@;
    let text = key + seq![':', ' '] + value;
    let n = text.len() as int;
    let c = key.len() as int;
    let groups = seq![
        Some(text.subrange(0, n)),
        Some(text.subrange(0, c)),
        Some(text.subrange(c + 2, n)),
    ];
    assert(text.subrange(0, c) == key);
    assert(text.subrange(c + 2, n) == value);
    assert forall|i: int| 0 <= i < c implies is_word(#[trigger] text[i]) by {
        assert(text[i] == key[i]);
    }
    assert forall|i: int| c + 2 <= i < n implies !is_space(#[trigger] text[i]) by {
        assert(text[i] == value[i - c - 2]);
    }
    assert(entry_at(text, 0, c, c + 2, n));
    assert(match_at(p, text, 0, n, groups));
    let found = seq![groups];
    assert(leftmost_match(p, text, 0, 0, n, found.first()));
    assert(found.drop_first() == Seq::<GroupsView>::empty());
    assert(all_matches(p, text, n, found.drop_first()));
    assert(all_matches(p, text, 0, found));
    all_matches_are_determined(p, text, 0, found, found_all(p, text));
    assert(found.drop_last() == Seq::<GroupsView>::empty());
    assert(found.last() == groups);
    assert(last_value(found.drop_last(), key) is None);
    assert forall|other: Seq<char>| other != key implies #[trigger] last_value(
        found,
        other,
    ) is None by {
        assert(last_value(found.drop_last(), other) is None);
    }
}

/// The text with one line for each key and its value.
pub open spec fn summary_text(entries: Seq<(Seq<char>, Seq<char>)>) -> Seq<char>
    decreases entries.len(),
{
    if entries.len() == 0 {
        Seq::empty()
    } else {
        entries.first().0 + seq![':', ' '] + entries.first().1 + seq!['\n'] + summary_text(
            entries.drop_first(),
        )
    }
}

proof fn lemma_lines(
    before: Seq<char>,
    from: int,
    entries: Seq<(Seq<char>, Seq<char>)>,
) -> (found: Seq<GroupsView>)
    requires
        from == before.len() || (from == before.len() - 1 && before[from] == '\n'),
        0 <= from,
        forall|i: int|
            0 <= i < entries.len() ==> is_entry((#[trigger] entries[i]).0, entries[i].1),
    ensures
        all_matches(CONDUCT_PATTERN@, before + summary_text(entries), from, found),
        found.len() == entries.len(),
        forall|i: int|
            0 <= i < entries.len() ==> key_of(#[trigger] found[i]) == entries[i].0 && value_of(
                found[i],
            ) == entries[i].1,
    decreases entries.len(),
{
    let p = CONDUCT_PATTERN@;
    let text = before + summary_text(entries);
    let s = before.len() as int;
    assert(!is_word('\n'));
    if entries.len() == 0 {
        let found = Seq::<GroupsView>::empty();
        assert(text == before);
        assert forall|start: int, end: int, groups: GroupsView| from <= start < text.len()
            implies !#[trigger] match_at(p, text, start, end, groups) by {
            assert(text[start] == '\n');
        }
        found
    } else {
        let (key, value) = entries.first();
        let rest = entries.drop_first();
        assert(is_entry(entries[0].0, entries[0].1));
        let c = s + key.len();
        let e = c + 2 + value.len();
        let line = key + seq![':', ' '] + value + seq!['\n'];
        let so_far = before + line;
        assert(text == so_far + summary_text(rest));
        assert forall|i: int| 0 <= i < rest.len() implies is_entry(
            (#[trigger] rest[i]).0,
            rest[i].1,
        ) by {
            assert(rest[i] == entries[i + 1]);
        }
        assert(so_far[e] == '\n');
        let others = lemma_lines(so_far, e, rest);
        assert(text.subrange(s, c) == key);
        assert(text.subrange(c + 2, e) == value);
        assert forall|i: int| s <= i < c implies is_word(#[trigger] text[i]) by {
            assert(text[i] == key[i - s]);
        }
        assert forall|i: int| c + 2 <= i < e implies !is_space(#[trigger] text[i]) by {
            assert(text[i] == value[i - c - 2]);
        }
        assert(text[c] == ':' && text[c + 1] == ' ' && text[e] == '\n');
        assert(entry_at(text, s, c, c + 2, e));
        let groups = seq![
            Some(text.subrange(s, e)),
            Some(text.subrange(s, c)),
            Some(text.subrange(c + 2, e)),
        ];
        assert(match_at(p, text, s, e, groups));
        assert forall|start: int, end: int, g: GroupsView| from <= start < s
            implies !#[trigger] match_at(p, text, start, end, g) by {
            assert(text[start] == '\n');
        }
        let found = seq![groups] + others;
        assert(found.first() == groups);
        assert(found.drop_first() == others);
        assert(leftmost_match(p, text, from, s, e, found.first()));
        assert forall|i: int| 0 <= i < entries.len() implies key_of(#[trigger] found[i])
            == entries[i].0 && value_of(found[i]) == entries[i].1 by {
            if i > 0 {
                assert(found[i] == others[i - 1]);
                assert(entries[i] == rest[i - 1]);
            }
        }
        found
    }
}

/// A summary of several lines is read back: the matches are its keys with their
/// values, in their order.
pub proof fn summary_is_read(entries: Seq<(Seq<char>, Seq<char>)>)
    requires
        forall|i: int|
            0 <= i < entries.len() ==> is_entry((#[trigger] entries[i]).0, entries[i].1),
    ensures
        ({
            let found = found_all(CONDUCT_PATTERN@, summary_text(entries));
            &&& found.len() == entries.len()
            &&& forall|i: int|
                0 <= i < entries.len() ==> key_of(#[trigger] found[i]) == entries[i].0 && value_of(
                    found[i],
                ) == entries[i].1
        }),
{
    let none = Seq::<char>::empty();
    let text = summary_text(entries);
    let found = lemma_lines(none, 0, entries);
    assert(none + text == text);
    all_matches_are_determined(CONDUCT_PATTERN@, text, 0, found, found_all(CONDUCT_PATTERN@, text));
}

/// Whether a key is one of those that a summary is read for.
pub open spec fn is_known(key: Seq<char>) -> bool {
    ||| key == "account_id"@
    ||| key == "raw_behavior_score"@
    ||| key == "behavior_rating"@
    ||| key == "commend_count"@
    ||| key == "reports_count"@
    ||| key == "matches_clean"@
    ||| key == "matches_abandoned"@
    ||| key == "comms_reports"@
    ||| key == "matches_in_report"@
}

proof fn lemma_other_key(
    before: Seq<GroupsView>,
    one: GroupsView,
    rest: Seq<GroupsView>,
    key: Seq<char>,
)
    requires
        key_of(one) != key,
    ensures
        last_value(before.push(one) + rest, key) == last_value(before + rest, key),
    decreases rest.len(),
{
    let long = before.push(one) + rest;
    let short = before + rest;
    if rest.len() == 0 {
        assert(long.drop_last() == before);
        assert(short == before);
    } else {
        lemma_other_key(before, one, rest.drop_last(), key);
        assert(long.drop_last() == before.push(one) + rest.drop_last());
        assert(short.drop_last() == before + rest.drop_last());
        assert(long.last() == rest.last() && short.last() == rest.last());
    }
}

/// A match with an unknown key has no effect on the summary, wherever it stands.
pub proof fn unknown_keys_have_no_effect(
    before: Seq<GroupsView>,
    one: GroupsView,
    rest: Seq<GroupsView>,
)
    requires
        !is_known(key_of(one)),
    ensures
        conduct_of(before.push(one) + rest) == conduct_of(before + rest),
{
    lemma_other_key(before, one, rest, "account_id"@);
    lemma_other_key(before, one, rest, "raw_behavior_score"@);
    lemma_other_key(before, one, rest, "behavior_rating"@);
    lemma_other_key(before, one, rest, "commend_count"@);
    lemma_other_key(before, one, rest, "reports_count"@);
    lemma_other_key(before, one, rest, "matches_clean"@);
    lemma_other_key(before, one, rest, "matches_abandoned"@);
    lemma_other_key(before, one, rest, "comms_reports"@);
    lemma_other_key(before, one, rest, "matches_in_report"@);
}

/// A colour by its red, green and blue.
#[derive(Clone, Copy, Debug, PartialEq, Eq, Structural)]
pub struct Rgb {
    pub red: u8,
    pub green: u8,
    pub blue: u8,
}

/// The colour with the given red, green and blue.
pub open spec fn rgb_of(red: u8, green: u8, blue: u8) -> Rgb {
    Rgb { red, green, blue }
}

fn rgb(red: u8, green: u8, blue: u8) -> (r: Rgb)
    ensures
        r == rgb_of(red, green, blue),
{
    Rgb { red, green, blue }
}

/// How a rating is shown: the four known ones in words, any other as it is,
/// and a missing one as unknown.
pub open spec fn label_of(rating: Seq<char>) -> Seq<char> {
    if rating == "k_eBehaviorGood"@ {
        "Good"@
    } else if rating == "k_eBehaviorNeutral"@ {
        "Neutral"@
    } else if rating == "k_eBehaviorBad"@ {
        "Bad"@
    } else if rating == "k_eBehaviorVerybad"@ {
        "Very Bad"@
    } else if rating.len() > 0 {
        rating
    } else {
        "Unknown"@
    }
}

/// The colour of a rating: green, yellow, red and dark red for the four known
/// ones, grey for any other.
pub open spec fn color_of(rating: Seq<char>) -> Rgb {
    if rating == "k_eBehaviorGood"@ {
        rgb_of(72, 199, 116)
    } else if rating == "k_eBehaviorNeutral"@ {
        rgb_of(220, 180, 50)
    } else if rating == "k_eBehaviorBad"@ {
        rgb_of(230, 80, 80)
    } else if rating == "k_eBehaviorVerybad"@ {
        rgb_of(180, 30, 30)
    } else {
        rgb_of(140, 140, 140)
    }
}

/// The score at which the score bar is full.
pub const FULL_SCORE: i32 = 12_000;

/// The part of the score that the score bar shows, out of `FULL_SCORE`.
pub open spec fn shown_score(score: i32) -> i32 {
    if score < 0 {
        0
    } else if score > FULL_SCORE {
        FULL_SCORE
    } else {
        score
    }
}

/// One line of a conduct card: a sign, a name, a count, and the colour in
/// which the count is shown.
#[derive(Debug)]
pub struct StatRow {
    pub icon: String,
    pub label: String,
    pub value: String,
    pub color: Rgb,
}

/// What a line of a conduct card says.
#[verifier::ext_equal]
pub struct StatRowView {
    pub icon: Seq<char>,
    pub label: Seq<char>,
    pub value: Seq<char>,
    pub color: Rgb,
}

impl View for StatRow {
    type V = StatRowView;

    open spec fn view(&self) -> StatRowView {
        StatRowView {
            icon: self.icon@,
            label: self.label@,
            value: self.value@,
            color: self.color,
        }
    }
}

impl DeepView for StatRow {
    type V = StatRowView;

    open spec fn deep_view(&self) -> StatRowView {
        self@
    }
}

/// The line for a count.
pub open spec fn row_of(icon: Seq<char>, label: Seq<char>, count: i32, color: Rgb) -> StatRowView {
    StatRowView { icon, label, value: signed_decimal(count as int), color }
}

/// The colour of a count that ought to be zero: `alert` where it is above
/// zero, and the ordinary colour of counts otherwise.
pub open spec fn alert_color(count: i32, alert: Rgb) -> Rgb {
    if count > 0 {
        alert
    } else {
        rgb_of(220, 220, 235)
    }
}

/// The lines of the card of a summary.
pub open spec fn rows_of(c: ConductView) -> Seq<StatRowView> {
    seq![
        row_of("★"@, "Commends"@, c.commend_count, rgb_of(255, 210, 60)),
        row_of(
            "⚑"@,
            "Reports"@,
            c.reports_count,
            alert_color(c.reports_count, rgb_of(230, 80, 80)),
        ),
        row_of("✓"@, "Clean"@, c.matches_clean, rgb_of(72, 199, 116)),
        row_of(
            "✗"@,
            "Abandoned"@,
            c.matches_abandoned,
            alert_color(c.matches_abandoned, rgb_of(230, 80, 80)),
        ),
        row_of(
            "✉"@,
            "Comms rep."@,
            c.comms_reports,
            alert_color(c.comms_reports, rgb_of(230, 130, 50)),
        ),
    ]
}

fn row(icon: &str, label: &str, count: i32, color: Rgb) -> (r: StatRow)
    ensures
        r@ == row_of(icon@, label@, count, color),
{
    StatRow { icon: icon.to_string(), label: label.to_string(), value: i32_text(count), color }
}

fn alert(count: i32, color: Rgb) -> (r: Rgb)
    ensures
        r == alert_color(count, color),
{
    if count > 0 {
        color
    } else {
        rgb(220, 220, 235)
    }
}

impl ConductStats {
    /// The rating in words.
    pub fn rating_label(&self) -> (r: &str)
        ensures
            r@ == label_of(self@.behavior_rating),
    {
        let rating: &str = self.behavior_rating.as_str();
        if same_text(rating, "k_eBehaviorGood") {
            "Good"
        } else if same_text(rating, "k_eBehaviorNeutral") {
            "Neutral"
        } else if same_text(rating, "k_eBehaviorBad") {
            "Bad"
        } else if same_text(rating, "k_eBehaviorVerybad") {
            "Very Bad"
        } else if !rating.is_empty() {
            rating
        } else {
            "Unknown"
        }
    }

    /// The colour of the rating.
    pub fn rating_color(&self) -> (r: Rgb)
        ensures
            r == color_of(self@.behavior_rating),
    {
        let rating: &str = self.behavior_rating.as_str();
        if same_text(rating, "k_eBehaviorGood") {
            rgb(72, 199, 116)
        } else if same_text(rating, "k_eBehaviorNeutral") {
            rgb(220, 180, 50)
        } else if same_text(rating, "k_eBehaviorBad") {
            rgb(230, 80, 80)
        } else if same_text(rating, "k_eBehaviorVerybad") {
            rgb(180, 30, 30)
        } else {
            rgb(140, 140, 140)
        }
    }

    /// How far the score bar is filled, out of `FULL_SCORE`.
    pub fn score_points(&self) -> (r: i32)
        ensures
            r == shown_score(self.behavior_score),
            0 <= r <= FULL_SCORE,
    {
        if self.behavior_score < 0 {
            0
        } else if self.behavior_score > FULL_SCORE {
            FULL_SCORE
        } else {
            self.behavior_score
        }
    }

    /// The score as it is shown beside the rating.
    pub fn score_text(&self) -> (r: String)
        ensures
            r@ == signed_decimal(self.behavior_score as int),
    {
        i32_text(self.behavior_score)
    }

    /// The lines of the summary's card.
    pub fn card_rows(&self) -> (r: Vec<StatRow>)
        ensures
            r.deep_view() == rows_of(self@),
    {
        let mut rows: Vec<StatRow> = Vec::new();
        rows.push(row("★", "Commends", self.commend_count, rgb(255, 210, 60)));
        rows.push(
            row("⚑", "Reports", self.reports_count, alert(self.reports_count, rgb(230, 80, 80))),
        );
        rows.push(row("✓", "Clean", self.matches_clean, rgb(72, 199, 116)));
        rows.push(
            row(
                "✗",
                "Abandoned",
                self.matches_abandoned,
                alert(self.matches_abandoned, rgb(230, 80, 80)),
            ),
        );
        rows.push(
            row("✉", "Comms rep.", self.comms_reports, alert(self.comms_reports, rgb(230, 130, 50))),
        );
        assert(rows.deep_view() =~= rows_of(self@));
        rows
    }

    /// The same summary again.
    pub fn copy(&self) -> (r: ConductStats)
        ensures
            r@ == self@,
    {
        ConductStats {
            account_id: self.account_id.clone(),
            behavior_score: self.behavior_score,
            behavior_rating: self.behavior_rating.clone(),
            commend_count: self.commend_count,
            reports_count: self.reports_count,
            matches_clean: self.matches_clean,
            matches_abandoned: self.matches_abandoned,
            comms_reports: self.comms_reports,
            matches_in_report: self.matches_in_report,
        }
    }
}

} // verus!
