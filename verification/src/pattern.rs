//! The patterns by which texts are read, and the searches for them.

use vstd::prelude::*;

use crate::text::{infix_at, is_digit};

verus! {

/// A key, a colon and a value, as a conduct summary holds them.
pub const CONDUCT_PATTERN: &'static str = "(\\w+):\\s*(\\S+)";

/// The entry of a library folder in the index of Steam's libraries.
pub const LIBRARY_PATH_PATTERN: &'static str = "\"path\"\\s+\"([^\"]+)\"";

/// The entry of the display name in an account's local configuration.
pub const PERSONA_NAME_PATTERN: &'static str = "\"PersonaName\"\\s+\"([^\"]+)\"";

/// The display name in a profile page.
pub const PROFILE_NAME_PATTERN: &'static str =
    "<steamID><!\\[CDATA\\[(.*?)\\]\\]></steamID>";

/// The address of the avatar picture in a profile page.
pub const PROFILE_AVATAR_PATTERN: &'static str =
    "<avatarMedium><!\\[CDATA\\[(.*?)\\]\\]></avatarMedium>";

/// Whether the text is one of the patterns above. Each of them is a valid
/// regular expression, far below the size limit.
pub open spec fn known_pattern(pattern: Seq<char>) -> bool {
    ||| pattern == CONDUCT_PATTERN@
    ||| pattern == LIBRARY_PATH_PATTERN@
    ||| pattern == PERSONA_NAME_PATTERN@
    ||| pattern == PROFILE_NAME_PATTERN@
    ||| pattern == PROFILE_AVATAR_PATTERN@
}

/// The capture groups of one match, the whole match first; a group that took
/// no part in the match is `None`.
pub type Groups = Vec<Option<String>>;

/// What the capture groups of a match say.
pub type GroupsView = Seq<Option<Seq<char>>>;

/// Whether `\w` matches a character beyond ASCII.
pub uninterp spec fn regex_word_char(c: char) -> bool;

/// Whether `\w` matches the character: among the ASCII characters the letters,
/// the digits and the underscore.
pub open spec fn is_word(c: char) -> bool {
    if (c as u32) < 128 {
        is_digit(c) || ('a' <= c && c <= 'z') || ('A' <= c && c <= 'Z') || c == '_'
    } else {
        regex_word_char(c)
    }
}

/// Whether `\s` matches the character, and `\S` does not: the characters with
/// the Unicode property of being white space.
pub open spec fn is_space(c: char) -> bool {
    ||| '\t' <= c && c <= '\r'
    ||| c == ' '
    ||| c == '\u{85}'
    ||| c == '\u{a0}'
    ||| c == '\u{1680}'
    ||| '\u{2000}' <= c && c <= '\u{200a}'
    ||| c == '\u{2028}'
    ||| c == '\u{2029}'
    ||| c == '\u{202f}'
    ||| c == '\u{205f}'
    ||| c == '\u{3000}'
}

/// Whether a key, a colon and a value stand in the text: the key from `start`
/// up to the colon at `colon`, then white space up to `value`, and from there
/// up to `end` the value, which runs as far as it can.
pub open spec fn entry_at(
    text: Seq<char>,
    start: int,
    colon: int,
    value: int,
    end: int,
) -> bool {
    &&& 0 <= start < colon < value < end <= text.len()
    &&& forall|i: int| start <= i < colon ==> is_word(#[trigger] text[i])
    &&& text[colon] == ':'
    &&& forall|i: int| colon < i < value ==> is_space(#[trigger] text[i])
    &&& forall|i: int| value <= i < end ==> !is_space(#[trigger] text[i])
    &&& end == text.len() || is_space(text[end])
}

/// Whether a label in quotes stands in the text at `start`, then white space up
/// to the quote at `open`, and a value that is not empty up to the next quote,
/// at `close`.
pub open spec fn quoted_at(
    text: Seq<char>,
    label: Seq<char>,
    start: int,
    open: int,
    close: int,
) -> bool {
    let quoted = seq!['"'] + label + seq!['"'];
    &&& infix_at(text, quoted, start)
    &&& start + quoted.len() < open
    &&& open + 1 < close < text.len()
    &&& forall|i: int| start + quoted.len() <= i < open ==> is_space(#[trigger] text[i])
    &&& text[open] == '"'
    &&& forall|i: int| open < i < close ==> #[trigger] text[i] != '"'
    &&& text[close] == '"'
}

/// How a profile page opens the text of an element.
pub open spec fn element_open(name: Seq<char>) -> Seq<char> {
    "<"@ + name + "><![CDATA["@
}

/// How a profile page closes the text of an element.
pub open spec fn element_close(name: Seq<char>) -> Seq<char> {
    "]]></"@ + name + ">"@
}

/// Whether an element stands in the text at `start`, with its own text up to
/// `close`, where it is closed for the first time. Its text is one line.
pub open spec fn element_at(text: Seq<char>, name: Seq<char>, start: int, close: int) -> bool {
    let from = start + element_open(name).len();
    &&& infix_at(text, element_open(name), start)
    &&& from <= close
    &&& infix_at(text, element_close(name), close)
    &&& forall|i: int| from <= i < close ==> #[trigger] text[i] != '\n'
    &&& forall|i: int| from <= i < close ==> !#[trigger] infix_at(text, element_close(name), i)
}

/// Whether a match of the conduct pattern runs from `start` to `end` and has
/// these groups.
pub open spec fn entry_match(text: Seq<char>, start: int, end: int, groups: GroupsView) -> bool {
    exists|colon: int, value: int| #[trigger]
        entry_at(text, start, colon, value, end) && groups == seq![
            Some(text.subrange(start, end)),
            Some(text.subrange(start, colon)),
            Some(text.subrange(value, end)),
        ]
}

/// Whether a match of the pattern for the labelled value runs from `start` to
/// `end` and has these groups.
pub open spec fn quoted_match(
    text: Seq<char>,
    label: Seq<char>,
    start: int,
    end: int,
    groups: GroupsView,
) -> bool {
    exists|open: int| #[trigger]
        quoted_at(text, label, start, open, end - 1) && groups == seq![
            Some(text.subrange(start, end)),
            Some(text.subrange(open + 1, end - 1)),
        ]
}

/// Whether a match of the pattern for the element runs from `start` to `end`
/// and has these groups.
pub open spec fn element_match(
    text: Seq<char>,
    name: Seq<char>,
    start: int,
    end: int,
    groups: GroupsView,
) -> bool {
    let close = end - element_close(name).len();
    &&& element_at(text, name, start, close)
    &&& groups == seq![
        Some(text.subrange(start, end)),
        Some(text.subrange(start + element_open(name).len(), close)),
    ]
}

/// Whether the match of the pattern that begins at `start` runs to `end` and
/// has these groups.
pub open spec fn match_at(
    pattern: Seq<char>,
    text: Seq<char>,
    start: int,
    end: int,
    groups: GroupsView,
) -> bool {
    if pattern == CONDUCT_PATTERN@ {
        entry_match(text, start, end, groups)
    } else if pattern == LIBRARY_PATH_PATTERN@ {
        quoted_match(text, "path"@, start, end, groups)
    } else if pattern == PERSONA_NAME_PATTERN@ {
        quoted_match(text, "PersonaName"@, start, end, groups)
    } else if pattern == PROFILE_NAME_PATTERN@ {
        element_match(text, "steamID"@, start, end, groups)
    } else {
        element_match(text, "avatarMedium"@, start, end, groups)
    }
}

/// Whether no match of the pattern begins at a position in the range.
pub open spec fn no_match_in(pattern: Seq<char>, text: Seq<char>, from: int, to: int) -> bool {
    forall|start: int, end: int, groups: GroupsView|
        from <= start < to ==> !#[trigger] match_at(pattern, text, start, end, groups)
}

/// Whether this is the leftmost match of the pattern from `from` on.
pub open spec fn leftmost_match(
    pattern: Seq<char>,
    text: Seq<char>,
    from: int,
    start: int,
    end: int,
    groups: GroupsView,
) -> bool {
    &&& from <= start
    &&& match_at(pattern, text, start, end, groups)
    &&& no_match_in(pattern, text, from, start)
}

/// Whether these are the groups of the leftmost match of the pattern in the
/// text, or none where the pattern matches nowhere.
pub open spec fn first_match(
    pattern: Seq<char>,
    text: Seq<char>,
    found: Option<GroupsView>,
) -> bool {
    match found {
        Some(groups) => exists|start: int, end: int| #[trigger]
            leftmost_match(pattern, text, 0, start, end, groups),
        None => no_match_in(pattern, text, 0, text.len() as int),
    }
}

/// Whether these are the groups of the successive matches of the pattern in
/// the text from `from` on: each is the leftmost one after the one before it.
pub open spec fn all_matches(
    pattern: Seq<char>,
    text: Seq<char>,
    from: int,
    found: Seq<GroupsView>,
) -> bool
    decreases found.len(),
{
    if found.len() == 0 {
        no_match_in(pattern, text, from, text.len() as int)
    } else {
        exists|start: int, end: int| #[trigger]
            leftmost_match(pattern, text, from, start, end, found.first()) && all_matches(
                pattern,
                text,
                end,
                found.drop_first(),
            )
    }
}

/// `Regex::captures` of the regex crate, for a pattern compiled by
/// `Regex::new`: the groups of the leftmost match of the pattern, or `None`
/// where it matches nowhere. What the patterns match is claimed as the syntax
/// of the crate has it: a greedy repetition takes as much as it can, a lazy one
/// as little, `.` is any character but a line feed. Which characters beyond
/// ASCII `\w` matches is named, not described.
#[verifier::external_body]
fn captures(pattern: &str, text: &str) -> (r: Option<Groups>)
    requires
        known_pattern(pattern@),
    ensures
        first_match(pattern@, text@, r.deep_view()),
{
    let found = regex::Regex::new(pattern).unwrap().captures(text);
    found.map(|c| c.iter().map(|g| g.map(|m| m.as_str().to_string())).collect())
}

/// `Regex::captures_iter` of the regex crate, for a pattern compiled by
/// `Regex::new`: the groups of the successive matches, which do not overlap.
/// What the patterns match is claimed as for `captures`.
#[verifier::external_body]
fn captures_iter(pattern: &str, text: &str) -> (r: Vec<Groups>)
    requires
        known_pattern(pattern@),
    ensures
        all_matches(pattern@, text@, 0, r.deep_view()),
        pattern@ == CONDUCT_PATTERN@ ==> forall|i: int, j: int|
            0 <= i < r.len() && 0 <= j < r.deep_view()[i][1]->0.len()
                && r.deep_view()[i][1]->0[j] as u32 >= 128 ==> regex_word_char(
                #[trigger] r.deep_view()[i][1]->0[j],
            ),
{
    let re = regex::Regex::new(pattern).unwrap();
    re.captures_iter(text).map(
        |c| c.iter().map(|g| g.map(|m| m.as_str().to_string())).collect(),
    ).collect()
}

/// The groups of the leftmost match of the pattern in the text.
pub open spec fn found_first(pattern: Seq<char>, text: Seq<char>) -> Option<GroupsView> {
    choose|found: Option<GroupsView>| first_match(pattern, text, found)
}

/// The groups of the successive matches of the pattern in the text.
pub open spec fn found_all(pattern: Seq<char>, text: Seq<char>) -> Seq<GroupsView> {
    choose|found: Seq<GroupsView>| all_matches(pattern, text, 0, found)
}

proof fn lemma_entry_determined(
    text: Seq<char>,
    start: int,
    c1: int,
    v1: int,
    e1: int,
    c2: int,
    v2: int,
    e2: int,
)
    requires
        entry_at(text, start, c1, v1, e1),
        entry_at(text, start, c2, v2, e2),
    ensures
        c1 == c2,
        v1 == v2,
        e1 == e2,
{
    assert(!is_word(':'));
    if c1 < c2 {
        assert(is_word(text[c1]));
    } else if c2 < c1 {
        assert(is_word(text[c2]));
    }
    if v1 < v2 {
        assert(is_space(text[v1]));
    } else if v2 < v1 {
        assert(is_space(text[v2]));
    }
    if e1 < e2 {
        assert(!is_space(text[e1]));
    } else if e2 < e1 {
        assert(!is_space(text[e2]));
    }
}

proof fn lemma_quoted_determined(
    text: Seq<char>,
    label: Seq<char>,
    start: int,
    o1: int,
    c1: int,
    o2: int,
    c2: int,
)
    requires
        quoted_at(text, label, start, o1, c1),
        quoted_at(text, label, start, o2, c2),
    ensures
        o1 == o2,
        c1 == c2,
{
    assert(!is_space('"'));
    if o1 < o2 {
        assert(is_space(text[o1]));
    } else if o2 < o1 {
        assert(is_space(text[o2]));
    }
    if c1 < c2 {
        assert(text[c1] != '"');
    } else if c2 < c1 {
        assert(text[c2] != '"');
    }
}

/// A match is determined by where it begins, and it is not empty.
pub proof fn match_is_determined(
    pattern: Seq<char>,
    text: Seq<char>,
    start: int,
    e1: int,
    g1: GroupsView,
    e2: int,
    g2: GroupsView,
)
    requires
        match_at(pattern, text, start, e1, g1),
        match_at(pattern, text, start, e2, g2),
    ensures
        e1 == e2,
        g1 == g2,
        0 <= start < e1 <= text.len(),
{
    if pattern == CONDUCT_PATTERN@ {
        let (c1, v1) = choose|c: int, v: int| #[trigger]
            entry_at(text, start, c, v, e1) && g1 == seq![
                Some(text.subrange(start, e1)),
                Some(text.subrange(start, c)),
                Some(text.subrange(v, e1)),
            ];
        let (c2, v2) = choose|c: int, v: int| #[trigger]
            entry_at(text, start, c, v, e2) && g2 == seq![
                Some(text.subrange(start, e2)),
                Some(text.subrange(start, c)),
                Some(text.subrange(v, e2)),
            ];
        lemma_entry_determined(text, start, c1, v1, e1, c2, v2, e2);
    } else if pattern == LIBRARY_PATH_PATTERN@ || pattern == PERSONA_NAME_PATTERN@ {
        let label = if pattern == LIBRARY_PATH_PATTERN@ {
            "path"@
        } else {
            "PersonaName"@
        };
        let o1 = choose|o: int| #[trigger]
            quoted_at(text, label, start, o, e1 - 1) && g1 == seq![
                Some(text.subrange(start, e1)),
                Some(text.subrange(o + 1, e1 - 1)),
            ];
        let o2 = choose|o: int| #[trigger]
            quoted_at(text, label, start, o, e2 - 1) && g2 == seq![
                Some(text.subrange(start, e2)),
                Some(text.subrange(o + 1, e2 - 1)),
            ];
        lemma_quoted_determined(text, label, start, o1, e1 - 1, o2, e2 - 1);
    } else {
        let name = if pattern == PROFILE_NAME_PATTERN@ {
            "steamID"@
        } else {
            "avatarMedium"@
        };
        reveal_strlit("<");
        let c1 = e1 - element_close(name).len();
        let c2 = e2 - element_close(name).len();
        if c1 < c2 {
            assert(!infix_at(text, element_close(name), c1));
        } else if c2 < c1 {
            assert(!infix_at(text, element_close(name), c2));
        }
    }
}

proof fn lemma_leftmost_determined(
    pattern: Seq<char>,
    text: Seq<char>,
    from: int,
    s1: int,
    e1: int,
    g1: GroupsView,
    s2: int,
    e2: int,
    g2: GroupsView,
)
    requires
        leftmost_match(pattern, text, from, s1, e1, g1),
        leftmost_match(pattern, text, from, s2, e2, g2),
    ensures
        s1 == s2,
        e1 == e2,
        g1 == g2,
        from <= s1 < e1 <= text.len(),
{
    if s1 < s2 {
        assert(!match_at(pattern, text, s1, e1, g1));
    } else if s2 < s1 {
        assert(!match_at(pattern, text, s2, e2, g2));
    }
    match_is_determined(pattern, text, s1, e1, g1, e2, g2);
}

/// There is only one leftmost match.
pub proof fn first_match_is_determined(
    pattern: Seq<char>,
    text: Seq<char>,
    one: Option<GroupsView>,
    other: Option<GroupsView>,
)
    requires
        first_match(pattern, text, one),
        first_match(pattern, text, other),
    ensures
        one == other,
{
    if one is Some {
        let (s1, e1) = choose|s: int, e: int| #[trigger]
            leftmost_match(pattern, text, 0, s, e, one->0);
        match_is_determined(pattern, text, s1, e1, one->0, e1, one->0);
        if other is Some {
            let (s2, e2) = choose|s: int, e: int| #[trigger]
                leftmost_match(pattern, text, 0, s, e, other->0);
            lemma_leftmost_determined(pattern, text, 0, s1, e1, one->0, s2, e2, other->0);
        } else {
            assert(!match_at(pattern, text, s1, e1, one->0));
        }
    } else if other is Some {
        let (s2, e2) = choose|s: int, e: int| #[trigger]
            leftmost_match(pattern, text, 0, s, e, other->0);
        match_is_determined(pattern, text, s2, e2, other->0, e2, other->0);
        assert(!match_at(pattern, text, s2, e2, other->0));
    }
}

/// There is only one row of successive matches.
pub proof fn all_matches_are_determined(
    pattern: Seq<char>,
    text: Seq<char>,
    from: int,
    one: Seq<GroupsView>,
    other: Seq<GroupsView>,
)
    requires
        all_matches(pattern, text, from, one),
        all_matches(pattern, text, from, other),
    ensures
        one == other,
    decreases one.len(),
{
    if one.len() > 0 {
        let (s1, e1) = choose|s: int, e: int| #[trigger]
            leftmost_match(pattern, text, from, s, e, one.first()) && all_matches(
                pattern,
                text,
                e,
                one.drop_first(),
            );
        match_is_determined(pattern, text, s1, e1, one.first(), e1, one.first());
        if other.len() > 0 {
            let (s2, e2) = choose|s: int, e: int| #[trigger]
                leftmost_match(pattern, text, from, s, e, other.first()) && all_matches(
                    pattern,
                    text,
                    e,
                    other.drop_first(),
                );
            lemma_leftmost_determined(
                pattern,
                text,
                from,
                s1,
                e1,
                one.first(),
                s2,
                e2,
                other.first(),
            );
            all_matches_are_determined(pattern, text, e1, one.drop_first(), other.drop_first());
            assert(one == seq![one.first()] + one.drop_first());
            assert(other == seq![other.first()] + other.drop_first());
        } else {
            assert(!match_at(pattern, text, s1, e1, one.first()));
        }
    } else if other.len() > 0 {
        let (s2, e2) = choose|s: int, e: int| #[trigger]
            leftmost_match(pattern, text, from, s, e, other.first()) && all_matches(
                pattern,
                text,
                e,
                other.drop_first(),
            );
        match_is_determined(pattern, text, s2, e2, other.first(), e2, other.first());
        assert(!match_at(pattern, text, s2, e2, other.first()));
    } else {
        assert(one == other);
    }
}

proof fn lemma_leftmost_exists(
    pattern: Seq<char>,
    text: Seq<char>,
    from: int,
    start: int,
    end: int,
    groups: GroupsView,
) -> (r: (int, int, GroupsView))
    requires
        from <= start,
        match_at(pattern, text, start, end, groups),
    ensures
        leftmost_match(pattern, text, from, r.0, r.1, r.2),
    decreases start - from,
{
    if no_match_in(pattern, text, from, start) {
        (start, end, groups)
    } else {
        let (s, e, g) = choose|s: int, e: int, g: GroupsView|
            from <= s < start && #[trigger] match_at(pattern, text, s, e, g);
        lemma_leftmost_exists(pattern, text, from, s, e, g)
    }
}

proof fn lemma_all_matches_exist(pattern: Seq<char>, text: Seq<char>, from: int) -> (r: Seq<
    GroupsView,
>)
    ensures
        all_matches(pattern, text, from, r),
    decreases text.len() - from,
{
    if no_match_in(pattern, text, from, text.len() as int) {
        Seq::empty()
    } else {
        let (s, e, g) = choose|s: int, e: int, g: GroupsView|
            from <= s < text.len() && #[trigger] match_at(pattern, text, s, e, g);
        let (start, end, groups) = lemma_leftmost_exists(pattern, text, from, s, e, g);
        match_is_determined(pattern, text, start, end, groups, end, groups);
        let rest = lemma_all_matches_exist(pattern, text, end);
        let r = seq![groups] + rest;
        assert(r.first() == groups);
        assert(r.drop_first() == rest);
        assert(leftmost_match(pattern, text, from, start, end, r.first()));
        r
    }
}

pub(crate) proof fn lemma_first_match(
    pattern: Seq<char>,
    text: Seq<char>,
    start: int,
    end: int,
    groups: GroupsView,
)
    requires
        leftmost_match(pattern, text, 0, start, end, groups),
    ensures
        first_match(pattern, text, Some(groups)),
{
    let found = Some(groups);
    assert(leftmost_match(pattern, text, 0, start, end, found->0));
}

/// In every text there is a leftmost match or none, and a row of successive
/// matches: `found_first` and `found_all` are these.
pub proof fn matches_exist(pattern: Seq<char>, text: Seq<char>)
    ensures
        first_match(pattern, text, found_first(pattern, text)),
        all_matches(pattern, text, 0, found_all(pattern, text)),
{
    let all = lemma_all_matches_exist(pattern, text, 0);
    assert(all_matches(pattern, text, 0, all));
    if no_match_in(pattern, text, 0, text.len() as int) {
        assert(first_match(pattern, text, None));
    } else {
        let (s, e, g) = choose|s: int, e: int, g: GroupsView|
            0 <= s < text.len() && #[trigger] match_at(pattern, text, s, e, g);
        let (start, end, groups) = lemma_leftmost_exists(pattern, text, 0, s, e, g);
        lemma_first_match(pattern, text, start, end, groups);
    }
}

/// The leftmost match is the first of the successive matches.
pub proof fn first_match_comes_first(pattern: Seq<char>, text: Seq<char>)
    ensures
        found_first(pattern, text) == if found_all(pattern, text).len() == 0 {
            None
        } else {
            Some(found_all(pattern, text).first())
        },
{
    matches_exist(pattern, text);
    let all = found_all(pattern, text);
    if all.len() == 0 {
        first_match_is_determined(pattern, text, None, found_first(pattern, text));
    } else {
        let (s, e) = choose|s: int, e: int| #[trigger]
            leftmost_match(pattern, text, 0, s, e, all.first()) && all_matches(
                pattern,
                text,
                e,
                all.drop_first(),
            );
        lemma_first_match(pattern, text, s, e, all.first());
        first_match_is_determined(
            pattern,
            text,
            Some(all.first()),
            found_first(pattern, text),
        );
    }
}

/// The groups of the leftmost match of the pattern in the text.
pub(crate) fn find_first(pattern: &str, text: &str) -> (r: Option<Groups>)
    requires
        known_pattern(pattern@),
    ensures
        r.deep_view() == found_first(pattern@, text@),
        first_match(pattern@, text@, r.deep_view()),
{
    let r: Option<Groups> = captures(pattern, text);
    proof {
        first_match_is_determined(
            pattern@,
            text@,
            r.deep_view(),
            found_first(pattern@, text@),
        );
    }
    r
}

/// The groups of the successive matches of the pattern in the text.
pub(crate) fn find_all(pattern: &str, text: &str) -> (r: Vec<Groups>)
    requires
        known_pattern(pattern@),
    ensures
        r.deep_view() == found_all(pattern@, text@),
        all_matches(pattern@, text@, 0, r.deep_view()),
{
    let r: Vec<Groups> = captures_iter(pattern, text);
    proof {
        all_matches_are_determined(
            pattern@,
            text@,
            0,
            r.deep_view(),
            found_all(pattern@, text@),
        );
    }
    r
}

/// Each of the successive matches is a match.
pub proof fn each_is_a_match(
    pattern: Seq<char>,
    text: Seq<char>,
    from: int,
    found: Seq<GroupsView>,
    i: int,
)
    requires
        all_matches(pattern, text, from, found),
        0 <= i < found.len(),
    ensures
        exists|start: int, end: int| #[trigger] match_at(pattern, text, start, end, found[i]),
    decreases found.len(),
{
    let (s, e) = choose|s: int, e: int| #[trigger]
        leftmost_match(pattern, text, from, s, e, found.first()) && all_matches(
            pattern,
            text,
            e,
            found.drop_first(),
        );
    if i == 0 {
        assert(match_at(pattern, text, s, e, found[0]));
    } else {
        each_is_a_match(pattern, text, e, found.drop_first(), i - 1);
        assert(found.drop_first()[i - 1] == found[i]);
    }
}

/// Group `i` of a match, if there is such a group and it took part.
pub open spec fn group(groups: GroupsView, i: int) -> Option<Seq<char>> {
    if 0 <= i < groups.len() {
        groups[i]
    } else {
        None
    }
}

/// Group `i` of a match, if there is such a group and it took part.
pub fn get_group(groups: &Groups, i: usize) -> (r: Option<String>)
    ensures
        r.deep_view() == group(groups.deep_view(), i as int),
{
    if i < groups.len() {
        match &groups[i] {
            Some(s) => Some(s.clone()),
            None => None,
        }
    } else {
        None
    }
}

/// The patterns are all different.
pub proof fn patterns_differ()
    ensures
        CONDUCT_PATTERN@ != LIBRARY_PATH_PATTERN@,
        CONDUCT_PATTERN@ != PERSONA_NAME_PATTERN@,
        CONDUCT_PATTERN@ != PROFILE_NAME_PATTERN@,
        CONDUCT_PATTERN@ != PROFILE_AVATAR_PATTERN@,
        LIBRARY_PATH_PATTERN@ != PERSONA_NAME_PATTERN@,
        LIBRARY_PATH_PATTERN@ != PROFILE_NAME_PATTERN@,
        LIBRARY_PATH_PATTERN@ != PROFILE_AVATAR_PATTERN@,
        PERSONA_NAME_PATTERN@ != PROFILE_NAME_PATTERN@,
        PERSONA_NAME_PATTERN@ != PROFILE_AVATAR_PATTERN@,
        PROFILE_NAME_PATTERN@ != PROFILE_AVATAR_PATTERN@,
{
    reveal_strlit("(\\w+):\\s*(\\S+)");
    reveal_strlit("\"path\"\\s+\"([^\"]+)\"");
    reveal_strlit("\"PersonaName\"\\s+\"([^\"]+)\"");
    reveal_strlit("<steamID><!\\[CDATA\\[(.*?)\\]\\]></steamID>");
    reveal_strlit("<avatarMedium><!\\[CDATA\\[(.*?)\\]\\]></avatarMedium>");
    assert(CONDUCT_PATTERN@.len() == 14);
    assert(LIBRARY_PATH_PATTERN@.len() == 18);
    assert(PERSONA_NAME_PATTERN@.len() == 25);
    assert(PROFILE_NAME_PATTERN@.len() == 40);
    assert(PROFILE_AVATAR_PATTERN@.len() == 50);
}

/// White space is what Unicode counts as such.
pub proof fn white_space_is_unicode(c: char)
    ensures
        is_space(c) <==> {
            let n = c as u32;
            ||| 9 <= n <= 13
            ||| n == 0x20 || n == 0x85 || n == 0xa0 || n == 0x1680
            ||| 0x2000 <= n <= 0x200a
            ||| n == 0x2028 || n == 0x2029 || n == 0x202f || n == 0x205f || n == 0x3000
        },
{
}

/// Among the ASCII characters, those of words are the digits, the letters and
/// the underscore; beyond ASCII, those that the crate says.
pub proof fn words_are_alphanumeric(c: char)
    ensures
        (c as u32) < 128 ==> (is_word(c) <==> {
            let n = c as u32;
            48 <= n <= 57 || 65 <= n <= 90 || n == 95 || 97 <= n <= 122
        }),
        (c as u32) >= 128 ==> (is_word(c) <==> regex_word_char(c)),
{
}

/// A group of a match is the one in its place, and a match has no others.
pub proof fn groups_stand_in_their_places(groups: GroupsView, i: int)
    ensures
        0 <= i < groups.len() ==> group(groups, i) == groups[i],
        i < 0 || i >= groups.len() ==> group(groups, i) is None,
{
}

} // verus!
