//! What holds of all public profiles: where they are, what they say, what is
//! asked for because of them, and what becomes known.

use vstd::prelude::*;

use crate::account::AccountView;
use crate::fetch::{asked, fetch_start, run, FetchAction, FetchActionView, FetchJob, FetchReply, FetchReplyView, FetchView, Surroundings};
use crate::numbers::{decimal, digits_value, rows_of_digits_are_read, u64_value};
use crate::path::{FsPath, PathView};
use crate::pattern::{element_at, element_close, element_open, first_match, first_match_is_determined, found_first, match_at, matches_exist, no_match_in, patterns_differ, GroupsView, PROFILE_AVATAR_PATTERN, PROFILE_NAME_PATTERN};
use crate::remote::{avatar_to_fetch, fits_community, profile_address, profile_avatar_is_the_first_element, profile_info, profile_name_is_the_first_element, update_of, Needs, RemoteAccountInfo, RemoteView, COMMUNITY_BASE};
use crate::text::infix_at;

verus! {

/// What a profile says is what its fields hold.
pub proof fn profiles_say_their_fields(r: RemoteAccountInfo)
    ensures
        r@.persona_name is Some <==> r.persona_name is Some,
        r.persona_name is Some ==> r@.persona_name->0 == r.persona_name->0@,
        r@.avatar_url is Some <==> r.avatar_url is Some,
        r.avatar_url is Some ==> r@.avatar_url->0 == r.avatar_url->0@,
{
}

/// Actions and replies say what they are.
pub proof fn fetch_words_say_what_they_are(
    text: String,
    path: FsPath,
    bytes: Vec<u8>,
    yes: bool,
)
    ensures
        FetchAction::GetText(text)@ == FetchActionView::GetText(text@),
        FetchAction::Exists(path)@ == FetchActionView::Exists(path@),
        FetchAction::GetBytes(text)@ == FetchActionView::GetBytes(text@),
        FetchAction::Store(path, bytes)@ == FetchActionView::Store(path@, bytes@),
        FetchReply::Text(Some(text))@ == FetchReplyView::Text(Some(text@)),
        FetchReply::Text(None)@ == FetchReplyView::Text(None),
        FetchReply::Exists(yes)@ == FetchReplyView::Exists(yes),
        FetchReply::Bytes(Some(bytes))@ == FetchReplyView::Bytes(Some(bytes@)),
        FetchReply::Bytes(None)@ == FetchReplyView::Bytes(None),
        FetchReply::Stored(yes)@ == FetchReplyView::Stored(yes),
{
}

/// A fetch under way says what its fields hold.
pub proof fn fetches_say_their_fields(job: FetchJob, action: FetchAction)
    ensures
        action.deep_view() == action@,
        job@.id == job.id@,
        job@.needs == job.needs,
        job@.file == job.file@,
{
}

/// The profile of the account with a number is at the address with the number in
/// the Steam community, which lies above it by a fixed distance. What is no
/// number has no profile.
pub proof fn profiles_are_found_by_number(id: Seq<char>)
    ensures
        COMMUNITY_BASE == 76_561_197_960_265_728,
        profile_address(id) is Some <==> u64_value(id) is Some,
        id.len() > 0 && (forall|i: int|
            0 <= i < id.len() ==> '0' <= #[trigger] id[i] && id[i] <= '9') && digits_value(id)
            + 76_561_197_960_265_728 <= u64::MAX ==> fits_community(digits_value(id) as u64)
            && profile_address(id) == Some(
            "https://steamcommunity.com/profiles/"@ + decimal(
                (digits_value(id) + 76_561_197_960_265_728) as nat,
            ) + "?xml=1"@,
        ),
{
    if id.len() > 0 && (forall|i: int|
        0 <= i < id.len() ==> '0' <= #[trigger] id[i] && id[i] <= '9') {
        rows_of_digits_are_read(id);
    }
}

/// A name is missing where it is empty, a picture where there is none, and
/// something where one of them is.
pub proof fn gaps_are_known(a: AccountView)
    ensures
        a.needs().name <==> a.persona_name.len() == 0,
        a.needs().avatar <==> a.avatar_path is None,
        a.needs().anything() <==> a.persona_name.len() == 0 || a.avatar_path is None,
{
}

/// A picture is to be fetched from where the profile says, and only where it is
/// missing.
pub proof fn missing_pictures_are_wanted(needs: Needs, remote: RemoteView)
    ensures
        needs.avatar ==> avatar_to_fetch(needs, remote) == remote.avatar_url,
        !needs.avatar ==> avatar_to_fetch(needs, remote) is None,
{
}

/// An update is about the account that it was fetched for. It has the profile's
/// name exactly where a name was missing and the profile has one that is not
/// empty, and the picture exactly where one was missing, the profile names one
/// and it was fetched. There is none where it would have neither.
pub proof fn updates_hold_what_was_missing(
    id: Seq<char>,
    needs: Needs,
    remote: RemoteView,
    fetched: Option<PathView>,
)
    ensures
        ({
            let named = needs.name && remote.persona_name is Some && remote.persona_name->0.len()
                > 0;
            let pictured = needs.avatar && remote.avatar_url is Some && fetched is Some;
            let update = update_of(id, needs, remote, fetched);
            &&& update is Some <==> named || pictured
            &&& update matches Some(u) ==> {
                &&& u.id == id
                &&& u.persona_name == if named { remote.persona_name } else { None }
                &&& u.avatar_path == if pictured { fetched } else { None }
            }
        }),
{
}

proof fn lemma_element(
    before: Seq<char>,
    name: Seq<char>,
    inner: Seq<char>,
    after: Seq<char>,
)
    requires
        forall|i: int| 0 <= i < before.len() ==> #[trigger] before[i] != '<',
        forall|i: int| 0 <= i < inner.len() ==> #[trigger] inner[i] != '\n',
        forall|i: int|
            0 <= i < inner.len() ==> !#[trigger] infix_at(
                inner + element_close(name),
                element_close(name),
                i,
            ),
    ensures
        ({
            let text = before + element_open(name) + inner + element_close(name) + after;
            let s = before.len() as int;
            let from = s + element_open(name).len();
            &&& element_at(text, name, s, from + inner.len())
            &&& text.subrange(from, from + inner.len()) == inner
            &&& forall|t: int, c: int| 0 <= t < s ==> !#[trigger] element_at(text, name, t, c)
        }),
{
    let open = element_open(name);
    let close = element_close(name);
    let text = before + open + inner + close + after;
    let s = before.len() as int;
    let from = s + open.len();
    let end = from + inner.len();
    reveal_strlit("<");
    assert(open[0] == '<');
    assert(text.subrange(s, s + open.len()) =~= open);
    assert(infix_at(text, open, s));
    assert(text.subrange(end, end + close.len()) =~= close);
    assert(infix_at(text, close, end));
    assert(text.subrange(from, end) =~= inner);
    assert forall|i: int| from <= i < end implies #[trigger] text[i] != '\n' by {
        assert(text[i] == inner[i - from]);
    }
    assert forall|i: int| from <= i < end implies !#[trigger] infix_at(text, close, i) by {
        let k = i - from;
        let both = inner + close;
        if infix_at(text, close, i) {
            assert(both.subrange(k, k + close.len()) =~= text.subrange(i, i + close.len()));
            assert(infix_at(both, close, k));
        }
    }
    assert forall|t: int, c: int| 0 <= t < s implies !#[trigger] element_at(text, name, t, c) by {
        assert(text[t] == before[t]);
        if infix_at(text, open, t) {
            assert(text.subrange(t, t + open.len())[0] == open[0]);
        }
    }
}

/// The name in a profile is what stands in its element, where that comes first:
/// anything on one line, up to where the element is closed.
pub proof fn names_stand_in_their_element(before: Seq<char>, name: Seq<char>, after: Seq<char>)
    requires
        forall|i: int| 0 <= i < before.len() ==> #[trigger] before[i] != '<',
        forall|i: int| 0 <= i < name.len() ==> #[trigger] name[i] != '\n',
        forall|i: int|
            0 <= i < name.len() ==> !#[trigger] infix_at(
                name + "]]></steamID>"@,
                "]]></steamID>"@,
                i,
            ),
    ensures
        profile_info(
            before + "<steamID><![CDATA["@ + name + "]]></steamID>"@ + after,
        ).persona_name == Some(name),
{
    reveal_strlit("<steamID><![CDATA[");
    reveal_strlit("]]></steamID>");
    reveal_strlit("<");
    reveal_strlit("steamID");
    reveal_strlit("><![CDATA[");
    reveal_strlit("]]></");
    reveal_strlit(">");
    assert(element_open("steamID"@) =~= "<steamID><![CDATA["@);
    assert(element_close("steamID"@) =~= "]]></steamID>"@);
    lemma_element(before, "steamID"@, name, after);
    let text = before + "<steamID><![CDATA["@ + name + "]]></steamID>"@ + after;
    let from = before.len() + element_open("steamID"@).len();
    profile_name_is_the_first_element(text, before.len() as int, (from + name.len()) as int);
}

/// The address of the picture in a profile is what stands in its element, in the
/// same way.
pub proof fn pictures_stand_in_their_element(before: Seq<char>, url: Seq<char>, after: Seq<char>)
    requires
        forall|i: int| 0 <= i < before.len() ==> #[trigger] before[i] != '<',
        forall|i: int| 0 <= i < url.len() ==> #[trigger] url[i] != '\n',
        forall|i: int|
            0 <= i < url.len() ==> !#[trigger] infix_at(
                url + "]]></avatarMedium>"@,
                "]]></avatarMedium>"@,
                i,
            ),
    ensures
        profile_info(
            before + "<avatarMedium><![CDATA["@ + url + "]]></avatarMedium>"@ + after,
        ).avatar_url == Some(url),
{
    reveal_strlit("<avatarMedium><![CDATA[");
    reveal_strlit("]]></avatarMedium>");
    reveal_strlit("<");
    reveal_strlit("avatarMedium");
    reveal_strlit("><![CDATA[");
    reveal_strlit("]]></");
    reveal_strlit(">");
    assert(element_open("avatarMedium"@) =~= "<avatarMedium><![CDATA["@);
    assert(element_close("avatarMedium"@) =~= "]]></avatarMedium>"@);
    lemma_element(before, "avatarMedium"@, url, after);
    let text = before + "<avatarMedium><![CDATA["@ + url + "]]></avatarMedium>"@ + after;
    let from = before.len() + element_open("avatarMedium"@).len();
    profile_avatar_is_the_first_element(text, before.len() as int, (from + url.len()) as int);
}

/// A page without any element says nothing.
pub proof fn plain_pages_say_nothing(text: Seq<char>)
    requires
        forall|i: int| 0 <= i < text.len() ==> #[trigger] text[i] != '<',
    ensures
        profile_info(text).persona_name is None,
        profile_info(text).avatar_url is None,
{
    patterns_differ();
    reveal_strlit("<");
    let p = PROFILE_NAME_PATTERN@;
    let q = PROFILE_AVATAR_PATTERN@;
    assert forall|s: int, e: int, g: GroupsView| 0 <= s < text.len() implies !#[trigger] match_at(
        p,
        text,
        s,
        e,
        g,
    ) by {
        let open = element_open("steamID"@);
        if infix_at(text, open, s) {
            assert(text.subrange(s, s + open.len())[0] == open[0]);
            assert(text[s] == '<');
        }
    }
    assert forall|s: int, e: int, g: GroupsView| 0 <= s < text.len() implies !#[trigger] match_at(
        q,
        text,
        s,
        e,
        g,
    ) by {
        let open = element_open("avatarMedium"@);
        if infix_at(text, open, s) {
            assert(text.subrange(s, s + open.len())[0] == open[0]);
            assert(text[s] == '<');
        }
    }
    assert(no_match_in(p, text, 0, text.len() as int));
    assert(no_match_in(q, text, 0, text.len() as int));
    assert(first_match(p, text, None));
    assert(first_match(q, text, None));
    matches_exist(p, text);
    matches_exist(q, text);
    first_match_is_determined(p, text, None, found_first(p, text));
    first_match_is_determined(q, text, None, found_first(q, text));
}

/// A fetch asks for the profile page where a name or a picture is missing and
/// what the account goes by is a number. Where the picture is missing and the
/// page names one, it asks whether the account's file is in the cache; where it
/// is not, it requests the picture, and where it gets that, stores it there. It
/// asks for nothing else.
pub proof fn fetches_ask_in_turn(a: AccountView, cache_dir: PathView, s: Surroundings)
    ensures
        ({
            let file = cache_dir.join(a.id + ".jpg"@);
            let page = FetchActionView::GetText(profile_address(a.id)->0);
            let look = FetchActionView::Exists(file);
            asked(s, fetch_start(a, cache_dir), 4) == if (a.persona_name.len() == 0
                || a.avatar_path is None) && u64_value(a.id) is Some {
                if s.page is Some && a.avatar_path is None && profile_info(
                    s.page->0,
                ).avatar_url is Some {
                    let get = FetchActionView::GetBytes(profile_info(s.page->0).avatar_url->0);
                    if s.cached {
                        seq![page, look]
                    } else if s.picture is Some {
                        seq![page, look, get, FetchActionView::Store(file, s.picture->0)]
                    } else {
                        seq![page, look, get]
                    }
                } else {
                    seq![page]
                }
            } else {
                Seq::empty()
            }
        }),
{
    reveal_with_fuel(asked, 5);
    let file = cache_dir.join(a.id + ".jpg"@);
    let page = FetchActionView::GetText(profile_address(a.id)->0);
    let look = FetchActionView::Exists(file);
    let all = asked(s, fetch_start(a, cache_dir), 4);
    if (a.persona_name.len() == 0 || a.avatar_path is None) && u64_value(a.id) is Some {
        if s.page is Some && a.avatar_path is None && profile_info(s.page->0).avatar_url is Some {
            let get = FetchActionView::GetBytes(profile_info(s.page->0).avatar_url->0);
            if s.cached {
                assert(all =~= seq![page, look]);
            } else if s.picture is Some {
                assert(all =~= seq![page, look, get, FetchActionView::Store(file, s.picture->0)]);
            } else {
                assert(all =~= seq![page, look, get]);
            }
        } else {
            assert(all =~= seq![page]);
        }
    } else {
        assert(all =~= Seq::empty());
    }
}

/// What becomes known by a fetch is about its account: the name that the page
/// gives, where the account had none and it is not empty, and the account's file
/// in the cache, where the account had no picture, the page names one, and it is
/// in the cache or could be fetched and stored. Nothing becomes known where
/// neither does.
pub proof fn fetches_find_what_is_missing(a: AccountView, cache_dir: PathView, s: Surroundings)
    ensures
        ({
            let asks = (a.persona_name.len() == 0 || a.avatar_path is None) && u64_value(
                a.id,
            ) is Some && s.page is Some;
            let info = profile_info(s.page->0);
            let named = asks && a.persona_name.len() == 0 && info.persona_name is Some
                && info.persona_name->0.len() > 0;
            let pictured = asks && a.avatar_path is None && info.avatar_url is Some && (s.cached
                || (s.picture is Some && s.storable));
            let end = run(s, fetch_start(a, cache_dir), 4);
            &&& end.action() is None
            &&& end.outcome() is Some <==> named || pictured
            &&& end.outcome() matches Some(u) ==> {
                &&& u.id == a.id
                &&& u.persona_name == if named { info.persona_name } else { None }
                &&& u.avatar_path == if pictured {
                    Some(cache_dir.join(a.id + ".jpg"@))
                } else {
                    None
                }
            }
        }),
{
    reveal_with_fuel(run, 5);
}

/// Every action can be answered: by what was asked for, or by that it could not
/// be had.
pub proof fn fetches_take_every_answer(
    job: FetchView,
    text: Option<Seq<char>>,
    bytes: Option<Seq<u8>>,
    yes: bool,
)
    ensures
        match job.action() {
            Some(FetchActionView::GetText(_)) => job.takes(FetchReplyView::Text(text)),
            Some(FetchActionView::Exists(_)) => job.takes(FetchReplyView::Exists(yes)),
            Some(FetchActionView::GetBytes(_)) => job.takes(FetchReplyView::Bytes(bytes)),
            Some(FetchActionView::Store(_, _)) => job.takes(FetchReplyView::Stored(yes)),
            None => true,
        },
{
}

} // verus!
