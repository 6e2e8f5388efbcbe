//! What the public profile of an account adds to what is known of it.

use vstd::prelude::*;
use vstd::string::*;

use crate::account::{AccountUpdate, AccountView, SteamAccount, UpdateView};
use crate::numbers::{decimal, parse_u64, u64_text, u64_value};
use crate::path::{FsPath, PathView};
use crate::pattern::{element_at, element_close, element_match, element_open, find_first, first_match_is_determined, found_first, get_group, group, lemma_first_match, match_at, patterns_differ, Groups, GroupsView, PROFILE_AVATAR_PATTERN, PROFILE_NAME_PATTERN};

verus! {

/// What lies between the number of an account and its number in the Steam
/// community.
pub const COMMUNITY_BASE: u64 = 76_561_197_960_265_728;

/// Whether the number of an account has a number in the Steam community.
pub open spec fn fits_community(id: u64) -> bool {
    id + COMMUNITY_BASE <= u64::MAX
}

/// The number in the Steam community of the account with the number.
pub fn community_id(id: u64) -> (r: u64)
    requires
        fits_community(id),
    ensures
        r == id + COMMUNITY_BASE,
{
    id + COMMUNITY_BASE
}

/// The address of the public profile of an account; none where what the
/// account goes by is not a number.
pub open spec fn profile_address(account_id: Seq<char>) -> Option<Seq<char>> {
    match u64_value(account_id) {
        Some(id) => Some(
            "https://steamcommunity.com/profiles/"@ + decimal((id + COMMUNITY_BASE) as nat)
                + "?xml=1"@,
        ),
        None => None,
    }
}

/// The address of the public profile of an account, if it can have one.
pub fn profile_url(account_id: &str) -> (r: Option<String>)
    requires
        u64_value(account_id@) is Some ==> fits_community(u64_value(account_id@)->0),
    ensures
        r.deep_view() == profile_address(account_id@),
{
    match parse_u64(account_id) {
        Some(id) => {
            let mut r: String = "https://steamcommunity.com/profiles/".to_string();
            r.append(u64_text(community_id(id)).as_str());
            r.append("?xml=1");
            Some(r)
        },
        None => None,
    }
}

/// What a profile says of an account.
#[derive(Debug)]
pub struct RemoteAccountInfo {
    pub persona_name: Option<String>,
    pub avatar_url: Option<String>,
}

/// What a profile says of an account, as text.
#[verifier::ext_equal]
pub struct RemoteView {
    pub persona_name: Option<Seq<char>>,
    pub avatar_url: Option<Seq<char>>,
}

impl View for RemoteAccountInfo {
    type V = RemoteView;

    open spec fn view(&self) -> RemoteView {
        RemoteView {
            persona_name: self.persona_name.deep_view(),
            avatar_url: self.avatar_url.deep_view(),
        }
    }
}

/// The first group of a match, if there is a match and it has one.
pub open spec fn first_group(found: Option<GroupsView>) -> Option<Seq<char>> {
    match found {
        Some(groups) => group(groups, 1),
        None => None,
    }
}

/// Reads the first group off a match.
pub fn first_group_of(found: &Option<Groups>) -> (r: Option<String>)
    ensures
        r.deep_view() == first_group(found.deep_view()),
{
    match found {
        Some(groups) => get_group(groups, 1),
        None => None,
    }
}

/// What the text of a profile page says of its account.
pub open spec fn profile_info(text: Seq<char>) -> RemoteView {
    RemoteView {
        persona_name: first_group(found_first(PROFILE_NAME_PATTERN@, text)),
        avatar_url: first_group(found_first(PROFILE_AVATAR_PATTERN@, text)),
    }
}

/// What the text of a profile page says of its account.
pub fn read_profile(text: &str) -> (r: RemoteAccountInfo)
    ensures
        r@ == profile_info(text@),
{
    RemoteAccountInfo {
        persona_name: first_group_of(&find_first(PROFILE_NAME_PATTERN, text)),
        avatar_url: first_group_of(&find_first(PROFILE_AVATAR_PATTERN, text)),
    }
}

/// What is missing of an account: its name, its picture.
#[derive(Clone, Copy, Debug, PartialEq, Eq, Structural)]
pub struct Needs {
    pub name: bool,
    pub avatar: bool,
}

impl AccountView {
    /// What is missing of the account.
    pub open spec fn needs(self) -> Needs {
        Needs { name: self.persona_name.len() == 0, avatar: self.avatar_path is None }
    }
}

impl Needs {
    /// Whether anything is missing, so that the profile is worth fetching.
    pub open spec fn anything(self) -> bool {
        self.name || self.avatar
    }

    /// Whether anything is missing, so that the profile is worth fetching.
    pub fn any(&self) -> (r: bool)
        ensures
            r == self.anything(),
    {
        self.name || self.avatar
    }
}

/// What is missing of an account.
pub fn missing_of(account: &SteamAccount) -> (r: Needs)
    ensures
        r == account@.needs(),
{
    Needs {
        name: account.persona_name.as_str().is_empty(),
        avatar: account.avatar_path.is_none(),
    }
}

/// The address of the picture to fetch: that of the profile, where the picture
/// is missing.
pub open spec fn avatar_to_fetch(needs: Needs, remote: RemoteView) -> Option<Seq<char>> {
    if needs.avatar {
        remote.avatar_url
    } else {
        None
    }
}

/// The address of the picture to fetch, if one is to be fetched.
pub fn wanted_avatar(needs: Needs, remote: &RemoteAccountInfo) -> (r: Option<String>)
    ensures
        r.deep_view() == avatar_to_fetch(needs, remote@),
{
    if needs.avatar {
        match &remote.avatar_url {
            Some(url) => Some(url.clone()),
            None => None,
        }
    } else {
        None
    }
}

/// Whether the picture of an account is asked for and stored: only where its
/// file is not in the cache.
pub fn downloads_avatar(present: bool) -> (r: bool)
    ensures
        r == !present,
{
    !present
}

/// Where the picture of an account is after it was asked for: in its file in
/// the cache, if it was there before or could be stored now.
pub fn download_avatar(file: FsPath, present: bool, stored: bool) -> (r: Option<FsPath>)
    ensures
        r.deep_view() == (if present || stored {
            Some(file@)
        } else {
            None
        }),
{
    if present || stored {
        Some(file)
    } else {
        None
    }
}

/// What becomes known of an account from its profile and from the picture that
/// was fetched for it: the name of the profile where it was missing and is not
/// empty, and the picture where one was to be fetched. Nothing where neither
/// is there.
pub open spec fn update_of(
    id: Seq<char>,
    needs: Needs,
    remote: RemoteView,
    fetched: Option<PathView>,
) -> Option<UpdateView> {
    let name = if needs.name && remote.persona_name is Some && remote.persona_name->0.len() > 0 {
        remote.persona_name
    } else {
        None
    };
    let avatar = if avatar_to_fetch(needs, remote) is Some {
        fetched
    } else {
        None
    };
    if name is None && avatar is None {
        None
    } else {
        Some(UpdateView { id, persona_name: name, avatar_path: avatar })
    }
}

/// What becomes known of an account from its profile and from the picture that
/// was fetched for it.
pub fn account_update(
    id: &str,
    needs: Needs,
    remote: RemoteAccountInfo,
    fetched: Option<FsPath>,
) -> (r: Option<AccountUpdate>)
    ensures
        r.deep_view() == update_of(id@, needs, remote@, fetched.deep_view()),
{
    let wanted: bool = needs.avatar && remote.avatar_url.is_some();
    let name: Option<String> = match remote.persona_name {
        Some(name) => if needs.name && !name.as_str().is_empty() {
            Some(name)
        } else {
            None
        },
        None => None,
    };
    let avatar: Option<FsPath> = if wanted {
        fetched
    } else {
        None
    };
    if name.is_none() && avatar.is_none() {
        None
    } else {
        Some(AccountUpdate { id: id.to_string(), persona_name: name, avatar_path: avatar })
    }
}

/// An account of which nothing is missing gets no update.
pub proof fn complete_accounts_stay(
    a: AccountView,
    remote: RemoteView,
    fetched: Option<PathView>,
)
    requires
        !a.needs().anything(),
    ensures
        update_of(a.id, a.needs(), remote, fetched) is None,
{
}

/// An update only fills in what is missing: a name and a picture that are
/// known stay, and where an update comes, something that was missing is no
/// longer missing.
pub proof fn updates_fill_in(a: AccountView, remote: RemoteView, fetched: Option<PathView>)
    ensures
        update_of(a.id, a.needs(), remote, fetched) matches Some(u) ==> {
            &&& u.id == a.id
            &&& !a.needs().name ==> a.updated(u).persona_name == a.persona_name
            &&& !a.needs().avatar ==> a.updated(u).avatar_path == a.avatar_path
            &&& (a.needs().name && !a.updated(u).needs().name) || (a.needs().avatar
                && !a.updated(u).needs().avatar)
        },
{
}

proof fn lemma_first_element(
    pattern: Seq<char>,
    text: Seq<char>,
    name: Seq<char>,
    start: int,
    close: int,
)
    requires
        element_at(text, name, start, close),
        forall|s: int, e: int, g: GroupsView|
            #[trigger] match_at(pattern, text, s, e, g) == element_match(text, name, s, e, g),
        forall|s: int, c: int| 0 <= s < start ==> !#[trigger] element_at(text, name, s, c),
    ensures
        first_group(found_first(pattern, text)) == Some(
            text.subrange(start + element_open(name).len(), close),
        ),
{
    let end = close + element_close(name).len();
    let groups = seq![
        Some(text.subrange(start, end)),
        Some(text.subrange(start + element_open(name).len(), close)),
    ];
    assert(element_match(text, name, start, end, groups));
    assert(match_at(pattern, text, start, end, groups));
    lemma_first_match(pattern, text, start, end, groups);
    first_match_is_determined(pattern, text, Some(groups), found_first(pattern, text));
}

/// The name that a profile page gives is the text of its first element for it.
pub proof fn profile_name_is_the_first_element(text: Seq<char>, start: int, close: int)
    requires
        element_at(text, "steamID"@, start, close),
        forall|s: int, c: int| 0 <= s < start ==> !#[trigger] element_at(text, "steamID"@, s, c),
    ensures
        profile_info(text).persona_name == Some(
            text.subrange(start + element_open("steamID"@).len(), close),
        ),
{
    patterns_differ();
    lemma_first_element(PROFILE_NAME_PATTERN@, text, "steamID"@, start, close);
}

/// The picture that a profile page gives is the text of its first element for
/// it.
pub proof fn profile_avatar_is_the_first_element(text: Seq<char>, start: int, close: int)
    requires
        element_at(text, "avatarMedium"@, start, close),
        forall|s: int, c: int|
            0 <= s < start ==> !#[trigger] element_at(text, "avatarMedium"@, s, c),
    ensures
        profile_info(text).avatar_url == Some(
            text.subrange(start + element_open("avatarMedium"@).len(), close),
        ),
{
    patterns_differ();
    lemma_first_element(PROFILE_AVATAR_PATTERN@, text, "avatarMedium"@, start, close);
}

} // verus!
