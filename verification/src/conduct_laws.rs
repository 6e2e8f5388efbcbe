//! What holds of all conduct summaries: what is read from a text, and how a
//! summary is shown.

use vstd::prelude::*;

use crate::conduct::{color_of, conduct_of, is_entry, key_of, label_of, last_value, rows_of, shown_score, summary_is_read, summary_text, value_of, ConductStats, ConductView, Rgb, StatRow, FULL_SCORE};
use crate::numbers::{decimal, decimal_stands_for, i32_value, reading_undoes_writing_i32, signed_decimal};
use crate::pattern::{all_matches, all_matches_are_determined, entry_at, found_all, is_space, is_word, leftmost_match, match_at, GroupsView, CONDUCT_PATTERN};
use crate::text::is_digit;

verus! {

/// A summary, and a line of its card, say what their fields hold.
pub proof fn summaries_say_their_fields(c: ConductStats, row: StatRow)
    ensures
        c.deep_view() == c@,
        row.deep_view() == row@,
        row@.icon == row.icon@,
        row@.label == row.label@,
        row@.value == row.value@,
        row@.color == row.color,
        c@.account_id == c.account_id@,
        c@.behavior_score == c.behavior_score,
        c@.behavior_rating == c.behavior_rating@,
        c@.commend_count == c.commend_count,
        c@.reports_count == c.reports_count,
        c@.matches_clean == c.matches_clean,
        c@.matches_abandoned == c.matches_abandoned,
        c@.comms_reports == c.comms_reports,
        c@.matches_in_report == c.matches_in_report,
{
}

proof fn lemma_last_value(matches: Seq<GroupsView>, i: int)
    requires
        0 <= i < matches.len(),
        forall|j: int| i < j < matches.len() ==> key_of(#[trigger] matches[j]) != key_of(matches[i]),
    ensures
        last_value(matches, key_of(matches[i])) == Some(value_of(matches[i])),
    decreases matches.len(),
{
    if i < matches.len() - 1 {
        let rest = matches.drop_last();
        assert(rest[i] == matches[i]);
        assert forall|j: int| i < j < rest.len() implies key_of(#[trigger] rest[j]) != key_of(
            rest[i],
        ) by {
            assert(rest[j] == matches[j]);
        }
        lemma_last_value(rest, i);
        assert(key_of(matches[matches.len() - 1]) != key_of(matches[i]));
    }
}

proof fn lemma_no_value(matches: Seq<GroupsView>, key: Seq<char>)
    requires
        forall|j: int| 0 <= j < matches.len() ==> key_of(#[trigger] matches[j]) != key,
    ensures
        last_value(matches, key) is None,
    decreases matches.len(),
{
    if matches.len() > 0 {
        let rest = matches.drop_last();
        assert forall|j: int| 0 <= j < rest.len() implies key_of(#[trigger] rest[j]) != key by {
            assert(rest[j] == matches[j]);
        }
        lemma_no_value(rest, key);
        assert(key_of(matches[matches.len() - 1]) != key);
    }
}

/// Whether a match has these two groups after the whole match.
pub open spec fn gives(groups: GroupsView, key: Seq<char>, value: Seq<char>) -> bool {
    groups.len() == 3 && groups[1] == Some(key) && groups[2] == Some(value)
}

/// Each field of a summary is the value of the last match with its key: the text
/// itself for the account and the rating, and the number for the others, or zero
/// where the value is no number.
pub proof fn last_match_of_a_key_counts(
    matches: Seq<GroupsView>,
    i: int,
    key: Seq<char>,
    value: Seq<char>,
)
    requires
        0 <= i < matches.len(),
        gives(matches[i], key, value),
        forall|j: int|
            i < j < matches.len() ==> (#[trigger] matches[j]).len() == 3 && matches[j][1] is Some
                && matches[j][1] != Some(key),
    ensures
        key == "account_id"@ ==> (conduct_of(matches) is Some <==> value.len() > 0),
        conduct_of(matches) matches Some(c) ==> {
            let n = i32_value(value).unwrap_or(0);
            &&& key == "account_id"@ ==> c.account_id == value
            &&& key == "raw_behavior_score"@ ==> c.behavior_score == n
            &&& key == "behavior_rating"@ ==> c.behavior_rating == value
            &&& key == "commend_count"@ ==> c.commend_count == n
            &&& key == "reports_count"@ ==> c.reports_count == n
            &&& key == "matches_clean"@ ==> c.matches_clean == n
            &&& key == "matches_abandoned"@ ==> c.matches_abandoned == n
            &&& key == "comms_reports"@ ==> c.comms_reports == n
            &&& key == "matches_in_report"@ ==> c.matches_in_report == n
        },
{
    lemma_last_value(matches, i);
}

/// A key that no match has leaves its field as it is at the start: nothing, or
/// zero. Without an account there is no summary.
pub proof fn missing_keys_say_nothing(matches: Seq<GroupsView>, key: Seq<char>)
    requires
        key.len() > 0,
        forall|j: int|
            0 <= j < matches.len() ==> (#[trigger] matches[j]).len() < 2 || matches[j][1]
                != Some(key),
    ensures
        key == "account_id"@ ==> conduct_of(matches) is None,
        conduct_of(matches) matches Some(c) ==> {
            &&& key == "account_id"@ ==> c.account_id == Seq::<char>::empty()
            &&& key == "raw_behavior_score"@ ==> c.behavior_score == 0
            &&& key == "behavior_rating"@ ==> c.behavior_rating == Seq::<char>::empty()
            &&& key == "commend_count"@ ==> c.commend_count == 0
            &&& key == "reports_count"@ ==> c.reports_count == 0
            &&& key == "matches_clean"@ ==> c.matches_clean == 0
            &&& key == "matches_abandoned"@ ==> c.matches_abandoned == 0
            &&& key == "comms_reports"@ ==> c.comms_reports == 0
            &&& key == "matches_in_report"@ ==> c.matches_in_report == 0
        },
{
    assert forall|j: int| 0 <= j < matches.len() implies key_of(#[trigger] matches[j]) != key by {
        assert(matches[j].len() < 2 || matches[j][1] != Some(key));
    }
    lemma_no_value(matches, key);
}

/// Of the lines of a summary with an account, the last one with a key gives the
/// field of that key.
pub proof fn each_line_is_read(entries: Seq<(Seq<char>, Seq<char>)>, k: int, account: int)
    requires
        forall|i: int|
            0 <= i < entries.len() ==> is_entry((#[trigger] entries[i]).0, entries[i].1),
        0 <= k < entries.len(),
        forall|j: int| k < j < entries.len() ==> (#[trigger] entries[j]).0 != entries[k].0,
        0 <= account < entries.len(),
        entries[account].0 == "account_id"@,
    ensures
        conduct_of(found_all(CONDUCT_PATTERN@, summary_text(entries))) matches Some(c) && {
            let key = entries[k].0;
            let n = i32_value(entries[k].1).unwrap_or(0);
            &&& key == "account_id"@ ==> c.account_id == entries[k].1
            &&& key == "raw_behavior_score"@ ==> c.behavior_score == n
            &&& key == "behavior_rating"@ ==> c.behavior_rating == entries[k].1
            &&& key == "commend_count"@ ==> c.commend_count == n
            &&& key == "reports_count"@ ==> c.reports_count == n
            &&& key == "matches_clean"@ ==> c.matches_clean == n
            &&& key == "matches_abandoned"@ ==> c.matches_abandoned == n
            &&& key == "comms_reports"@ ==> c.comms_reports == n
            &&& key == "matches_in_report"@ ==> c.matches_in_report == n
        },
{
    summary_is_read(entries);
    let found = found_all(CONDUCT_PATTERN@, summary_text(entries));
    assert(found.len() == entries.len());
    lemma_some_account(found, entries, account);
    assert(key_of(found[k]) == entries[k].0);
    assert forall|j: int| k < j < found.len() implies key_of(#[trigger] found[j]) != key_of(
        found[k],
    ) by {
        assert(entries[j].0 != entries[k].0);
    }
    lemma_last_value(found, k);
}

proof fn lemma_some_account(
    found: Seq<GroupsView>,
    entries: Seq<(Seq<char>, Seq<char>)>,
    account: int,
)
    requires
        found.len() == entries.len(),
        forall|i: int|
            0 <= i < entries.len() ==> key_of(#[trigger] found[i]) == entries[i].0 && value_of(
                found[i],
            ) == entries[i].1,
        forall|i: int|
            0 <= i < entries.len() ==> is_entry((#[trigger] entries[i]).0, entries[i].1),
        0 <= account < entries.len(),
        entries[account].0 == "account_id"@,
    ensures
        conduct_of(found) is Some,
    decreases entries.len() - account,
{
    if exists|j: int| account < j < entries.len() && (#[trigger] entries[j]).0 == "account_id"@ {
        let j = choose|j: int|
            account < j < entries.len() && (#[trigger] entries[j]).0 == "account_id"@;
        lemma_some_account(found, entries, j);
    } else {
        assert(key_of(found[account]) == "account_id"@);
        assert forall|j: int| account < j < found.len() implies key_of(#[trigger] found[j])
            != key_of(found[account]) by {
            assert(entries[j].0 != "account_id"@);
        }
        lemma_last_value(found, account);
        assert(is_entry(entries[account].0, entries[account].1));
    }
}

/// A count that is written in a summary is read back: the last line with its key
/// gives it, whatever the number is.
pub proof fn written_counts_are_read(
    entries: Seq<(Seq<char>, Seq<char>)>,
    k: int,
    account: int,
    count: i32,
)
    requires
        forall|i: int|
            0 <= i < entries.len() ==> is_entry((#[trigger] entries[i]).0, entries[i].1),
        0 <= k < entries.len(),
        forall|j: int| k < j < entries.len() ==> (#[trigger] entries[j]).0 != entries[k].0,
        0 <= account < entries.len(),
        entries[account].0 == "account_id"@,
        entries[k].1 == signed_decimal(count as int),
    ensures
        conduct_of(found_all(CONDUCT_PATTERN@, summary_text(entries))) matches Some(c) && {
            let key = entries[k].0;
            &&& key == "raw_behavior_score"@ ==> c.behavior_score == count
            &&& key == "commend_count"@ ==> c.commend_count == count
            &&& key == "reports_count"@ ==> c.reports_count == count
            &&& key == "matches_clean"@ ==> c.matches_clean == count
            &&& key == "matches_abandoned"@ ==> c.matches_abandoned == count
            &&& key == "comms_reports"@ ==> c.comms_reports == count
            &&& key == "matches_in_report"@ ==> c.matches_in_report == count
        },
{
    each_line_is_read(entries, k, account);
    reading_undoes_writing_i32(count);
}

/// The lines of a summary without an account give no summary; a key without a
/// line leaves its field as it is at the start.
pub proof fn missing_lines_say_nothing(entries: Seq<(Seq<char>, Seq<char>)>, key: Seq<char>)
    requires
        forall|i: int|
            0 <= i < entries.len() ==> is_entry((#[trigger] entries[i]).0, entries[i].1),
        forall|i: int| 0 <= i < entries.len() ==> (#[trigger] entries[i]).0 != key,
    ensures
        ({
            let found = conduct_of(found_all(CONDUCT_PATTERN@, summary_text(entries)));
            &&& key == "account_id"@ ==> found is None
            &&& found matches Some(c) ==> {
                &&& key == "account_id"@ ==> c.account_id == Seq::<char>::empty()
                &&& key == "raw_behavior_score"@ ==> c.behavior_score == 0
                &&& key == "behavior_rating"@ ==> c.behavior_rating == Seq::<char>::empty()
                &&& key == "commend_count"@ ==> c.commend_count == 0
                &&& key == "reports_count"@ ==> c.reports_count == 0
                &&& key == "matches_clean"@ ==> c.matches_clean == 0
                &&& key == "matches_abandoned"@ ==> c.matches_abandoned == 0
                &&& key == "comms_reports"@ ==> c.comms_reports == 0
                &&& key == "matches_in_report"@ ==> c.matches_in_report == 0
            }
        }),
{
    summary_is_read(entries);
    let found = found_all(CONDUCT_PATTERN@, summary_text(entries));
    assert forall|j: int| 0 <= j < found.len() implies key_of(#[trigger] found[j]) != key by {
        assert(entries[j].0 != key);
    }
    lemma_no_value(found, key);
}

/// A line is one key, a colon, a space and one value, and the lines of a summary
/// follow each other.
pub proof fn lines_follow_each_other(
    key: Seq<char>,
    value: Seq<char>,
    rest: Seq<(Seq<char>, Seq<char>)>,
)
    ensures
        summary_text(Seq::empty()) == Seq::<char>::empty(),
        summary_text(seq![(key, value)] + rest) == key + ": "@ + value + "\n"@ + summary_text(rest),
{
    reveal_strlit(": ");
    reveal_strlit("\n");
    let all = seq![(key, value)] + rest;
    assert(all.first() == (key, value));
    assert(all.drop_first() == rest);
    assert(": "@ == seq![':', ' ']);
    assert("\n"@ == seq!['\n']);
}

/// Any white space, or none, may stand between the colon and the value, and
/// around the whole: the key and the value are read all the same.
pub proof fn white_space_does_not_matter(
    lead: Seq<char>,
    key: Seq<char>,
    space: Seq<char>,
    value: Seq<char>,
    trail: Seq<char>,
)
    requires
        is_entry(key, value),
        forall|i: int| 0 <= i < lead.len() ==> is_space(#[trigger] lead[i]) && !is_word(lead[i]),
        forall|i: int| 0 <= i < space.len() ==> is_space(#[trigger] space[i]),
        forall|i: int| 0 <= i < trail.len() ==> is_space(#[trigger] trail[i]) && !is_word(trail[i]),
    ensures
        ({
            let found = found_all(CONDUCT_PATTERN@, lead + key + seq![':'] + space + value + trail);
            found.len() == 1 && found[0].len() == 3 && found[0][1] == Some(key) && found[0][2]
                == Some(value)
        }),
{
    let p = CONDUCT_PATTERN@;
    let text = lead + key + seq![':'] + space + value + trail;
    let s = lead.len() as int;
    let c = s + key.len();
    let v = c + 1 + space.len();
    let e = v + value.len();
    assert(text.subrange(s, c) =~= key);
    assert(text.subrange(v, e) =~= value);
    assert forall|i: int| s <= i < c implies is_word(#[trigger] text[i]) by {
        assert(text[i] == key[i - s]);
    }
    assert forall|i: int| c < i < v implies is_space(#[trigger] text[i]) by {
        assert(text[i] == space[i - c - 1]);
    }
    assert forall|i: int| v <= i < e implies !is_space(#[trigger] text[i]) by {
        assert(text[i] == value[i - v]);
    }
    assert(e < text.len() ==> text[e] == trail[0]);
    assert(entry_at(text, s, c, v, e));
    let groups = seq![
        Some(text.subrange(s, e)),
        Some(text.subrange(s, c)),
        Some(text.subrange(v, e)),
    ];
    assert(match_at(p, text, s, e, groups));
    assert forall|start: int, end: int, g: GroupsView| 0 <= start < s implies !#[trigger] match_at(
        p,
        text,
        start,
        end,
        g,
    ) by {
        assert(text[start] == lead[start]);
    }
    assert forall|start: int, end: int, g: GroupsView| e <= start < text.len()
        implies !#[trigger] match_at(p, text, start, end, g) by {
        assert(text[start] == trail[start - e]);
    }
    let found = seq![groups];
    assert(leftmost_match(p, text, 0, s, e, found.first()));
    assert(found.drop_first() == Seq::<GroupsView>::empty());
    assert(all_matches(p, text, e, found.drop_first()));
    assert(all_matches(p, text, 0, found));
    crate::pattern::matches_exist(p, text);
    all_matches_are_determined(p, text, 0, found, found_all(p, text));
}

/// The four known ratings are shown in words, any other rating as it is, and
/// only a missing one as unknown.
pub proof fn ratings_are_shown(rating: Seq<char>)
    ensures
        rating == "k_eBehaviorGood"@ ==> label_of(rating) == "Good"@,
        rating == "k_eBehaviorNeutral"@ ==> label_of(rating) == "Neutral"@,
        rating == "k_eBehaviorBad"@ ==> label_of(rating) == "Bad"@,
        rating == "k_eBehaviorVerybad"@ ==> label_of(rating) == "Very Bad"@,
        rating.len() == 0 ==> label_of(rating) == "Unknown"@,
        rating.len() > 0 && rating != "k_eBehaviorGood"@ && rating != "k_eBehaviorNeutral"@
            && rating != "k_eBehaviorBad"@ && rating != "k_eBehaviorVerybad"@ ==> label_of(rating)
            == rating,
{
    lemma_ratings_differ();
}

proof fn lemma_ratings_differ()
    ensures
        "k_eBehaviorGood"@.len() == 15,
        "k_eBehaviorNeutral"@.len() == 18,
        "k_eBehaviorBad"@.len() == 14,
        "k_eBehaviorVerybad"@.len() == 18,
        "k_eBehaviorNeutral"@ != "k_eBehaviorVerybad"@,
{
    reveal_strlit("k_eBehaviorGood");
    reveal_strlit("k_eBehaviorNeutral");
    reveal_strlit("k_eBehaviorBad");
    reveal_strlit("k_eBehaviorVerybad");
    assert("k_eBehaviorNeutral"@[11] == 'N');
    assert("k_eBehaviorVerybad"@[11] == 'V');
}

/// The four known ratings have colours of their own; all others, and a missing
/// one, share one.
pub proof fn ratings_have_colours(rating: Seq<char>)
    ensures
        ({
            let c = color_of(rating);
            &&& rating == "k_eBehaviorGood"@ ==> c.red == 72 && c.green == 199 && c.blue == 116
            &&& rating == "k_eBehaviorNeutral"@ ==> c.red == 220 && c.green == 180 && c.blue == 50
            &&& rating == "k_eBehaviorBad"@ ==> c.red == 230 && c.green == 80 && c.blue == 80
            &&& rating == "k_eBehaviorVerybad"@ ==> c.red == 180 && c.green == 30 && c.blue == 30
            &&& rating != "k_eBehaviorGood"@ && rating != "k_eBehaviorNeutral"@ && rating
                != "k_eBehaviorBad"@ && rating != "k_eBehaviorVerybad"@ ==> c.red == 140 && c.green
                == 140 && c.blue == 140
        }),
{
    lemma_ratings_differ();
}

/// The score bar is empty up to zero, full from twelve thousand on, and between
/// them it shows every point. A higher score never shows less.
pub proof fn scores_fill_the_bar(score: i32, higher: i32)
    requires
        score <= higher,
    ensures
        FULL_SCORE == 12_000,
        score <= 0 ==> shown_score(score) == 0,
        score >= 12_000 ==> shown_score(score) == 12_000,
        0 <= score <= 12_000 ==> shown_score(score) == score,
        shown_score(score) <= shown_score(higher),
{
}

/// The card of a summary has five lines: what each is about, the count that the
/// summary has for it, in decimal, and its colour, which warns of a count above
/// zero that ought to be zero.
pub proof fn cards_show_the_counts(c: ConductView)
    ensures
        ({
            let rows = rows_of(c);
            let usual = Rgb { red: 220, green: 220, blue: 235 };
            let red = Rgb { red: 230, green: 80, blue: 80 };
            &&& rows.len() == 5
            &&& rows[0].label == "Commends"@ && rows[0].icon == "★"@
            &&& rows[1].label == "Reports"@ && rows[1].icon == "⚑"@
            &&& rows[2].label == "Clean"@ && rows[2].icon == "✓"@
            &&& rows[3].label == "Abandoned"@ && rows[3].icon == "✗"@
            &&& rows[4].label == "Comms rep."@ && rows[4].icon == "✉"@
            &&& i32_value(rows[0].value) == Some(c.commend_count)
            &&& i32_value(rows[1].value) == Some(c.reports_count)
            &&& i32_value(rows[2].value) == Some(c.matches_clean)
            &&& i32_value(rows[3].value) == Some(c.matches_abandoned)
            &&& i32_value(rows[4].value) == Some(c.comms_reports)
            &&& rows[0].value == signed_decimal(c.commend_count as int)
            &&& rows[1].value == signed_decimal(c.reports_count as int)
            &&& rows[2].value == signed_decimal(c.matches_clean as int)
            &&& rows[3].value == signed_decimal(c.matches_abandoned as int)
            &&& rows[4].value == signed_decimal(c.comms_reports as int)
            &&& rows[0].color == (Rgb { red: 255, green: 210, blue: 60 })
            &&& rows[1].color == if c.reports_count > 0 { red } else { usual }
            &&& rows[2].color == (Rgb { red: 72, green: 199, blue: 116 })
            &&& rows[3].color == if c.matches_abandoned > 0 { red } else { usual }
            &&& rows[4].color == if c.comms_reports > 0 {
                Rgb { red: 230, green: 130, blue: 50 }
            } else {
                usual
            }
        }),
{
    reading_undoes_writing_i32(c.commend_count);
    reading_undoes_writing_i32(c.reports_count);
    reading_undoes_writing_i32(c.matches_clean);
    reading_undoes_writing_i32(c.matches_abandoned);
    reading_undoes_writing_i32(c.comms_reports);
}

/// A written number is such as a line of a summary holds.
pub proof fn written_numbers_are_values(key: Seq<char>, n: int)
    requires
        key.len() > 0,
        forall|i: int| 0 <= i < key.len() ==> is_word(#[trigger] key[i]),
    ensures
        is_entry(key, signed_decimal(n)),
{
    let s = signed_decimal(n);
    let m = (if n < 0 { -n } else { n }) as nat;
    decimal_stands_for(m);
    assert forall|i: int| 0 <= i < s.len() implies !is_space(#[trigger] s[i]) by {
        if n < 0 {
            if i > 0 {
                assert(s[i] == decimal(m)[i - 1]);
                assert(is_digit(decimal(m)[i - 1]));
            }
        } else {
            assert(is_digit(decimal(m)[i]));
        }
    }
}

} // verus!
