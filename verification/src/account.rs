//! Steam accounts, as they are found on disk and shown to the user.

use vstd::prelude::*;
use vstd::string::*;

use crate::conduct::{conduct_of, parse_conduct_stats, ConductStats, ConductView};
use crate::numbers::{decimal, decimal_stands_for, digits_value};
use crate::path::{copy_path_option, is_name, is_separator, plain, FsPath, PathView, Platform};
use crate::pattern::{find_first, first_match, first_match_is_determined, found_all, found_first, get_group, group, leftmost_match, lemma_first_match, match_at, patterns_differ, quoted_at, Groups, GroupsView, CONDUCT_PATTERN, PERSONA_NAME_PATTERN};
use crate::text::{chars_of, contains_text, has_infix, infix_at, is_digit, lowercase, numeric_char, same_text};

verus! {

/// A Steam account: its number, the name it is shown by (empty where that is
/// unknown), its picture, and its conduct summary.
#[derive(Debug, Clone)]
pub struct SteamAccount {
    pub id: String,
    pub persona_name: String,
    pub avatar_path: Option<FsPath>,
    pub conduct: Option<ConductStats>,
}

/// What an account says.
#[verifier::ext_equal]
pub struct AccountView {
    pub id: Seq<char>,
    pub persona_name: Seq<char>,
    pub avatar_path: Option<PathView>,
    pub conduct: Option<ConductView>,
}

impl View for SteamAccount {
    type V = AccountView;

    open spec fn view(&self) -> AccountView {
        AccountView {
            id: self.id@,
            persona_name: self.persona_name@,
            avatar_path: self.avatar_path.deep_view(),
            conduct: self.conduct.deep_view(),
        }
    }
}

impl DeepView for SteamAccount {
    type V = AccountView;

    open spec fn deep_view(&self) -> AccountView {
        self@
    }
}

/// What has become known of an account: a name, a picture, or both.
#[derive(Debug)]
pub struct AccountUpdate {
    pub id: String,
    pub persona_name: Option<String>,
    pub avatar_path: Option<FsPath>,
}

/// What an update says.
#[verifier::ext_equal]
pub struct UpdateView {
    pub id: Seq<char>,
    pub persona_name: Option<Seq<char>>,
    pub avatar_path: Option<PathView>,
}

impl View for AccountUpdate {
    type V = UpdateView;

    open spec fn view(&self) -> UpdateView {
        UpdateView {
            id: self.id@,
            persona_name: self.persona_name.deep_view(),
            avatar_path: self.avatar_path.deep_view(),
        }
    }
}

impl DeepView for AccountUpdate {
    type V = UpdateView;

    open spec fn deep_view(&self) -> UpdateView {
        self@
    }
}

impl AccountView {
    /// How the account is shown: by its name with its number in brackets, or
    /// by its number alone.
    pub open spec fn display_name(self) -> Seq<char> {
        if self.persona_name.len() == 0 {
            self.id
        } else {
            self.persona_name + " ("@ + self.id + ")"@
        }
    }

    /// The address of the account's picture.
    pub open spec fn avatar_uri(self) -> Option<Seq<char>> {
        match self.avatar_path {
            Some(p) => Some("file://"@ + p.written()),
            None => None,
        }
    }

    /// The account with what an update says of it.
    pub open spec fn updated(self, u: UpdateView) -> AccountView {
        AccountView {
            id: self.id,
            persona_name: u.persona_name.unwrap_or(self.persona_name),
            avatar_path: if u.avatar_path is Some {
                u.avatar_path
            } else {
                self.avatar_path
            },
            conduct: self.conduct,
        }
    }

    /// Whether the account is shown for a search: always for an empty one, and
    /// else where the account as shown contains it, whatever the case.
    pub open spec fn found_by(self, query: Seq<char>) -> bool {
        query.len() == 0 || has_infix(lowercase(self.display_name()), lowercase(query))
    }
}

impl SteamAccount {
    /// How the account is shown.
    pub fn display_name(&self) -> (r: String)
        ensures
            r@ == self@.display_name(),
    {
        if self.persona_name.as_str().is_empty() {
            self.id.clone()
        } else {
            let mut r: String = self.persona_name.clone();
            r.append(" (");
            r.append(self.id.as_str());
            r.append(")");
            r
        }
    }

    /// The address of the account's picture, if it has one.
    pub fn avatar_uri(&self) -> (r: Option<String>)
        ensures
            r.deep_view() == self@.avatar_uri(),
    {
        match &self.avatar_path {
            Some(p) => {
                let mut r: String = "file://".to_string();
                r.append(p.to_text().as_str());
                Some(r)
            },
            None => None,
        }
    }

    /// The same account again.
    pub fn copy(&self) -> (r: SteamAccount)
        ensures
            r@ == self@,
    {
        SteamAccount {
            id: self.id.clone(),
            persona_name: self.persona_name.clone(),
            avatar_path: copy_path_option(&self.avatar_path),
            conduct: match &self.conduct {
                Some(c) => Some(c.copy()),
                None => None,
            },
        }
    }

    /// Whether the account is shown for a search.
    pub fn is_found_by(&self, query: &str) -> (r: bool)
        ensures
            r == self@.found_by(query@),
    {
        query.is_empty() || contains_text(
            self.display_name().as_str().to_lowercase().as_str(),
            query.to_lowercase().as_str(),
        )
    }
}

/// The same accounts again.
pub fn copy_accounts(accounts: &Vec<SteamAccount>) -> (r: Vec<SteamAccount>)
    ensures
        r.deep_view() == accounts.deep_view(),
{
    let mut r: Vec<SteamAccount> = Vec::new();
    let mut i: usize = 0;
    while i < accounts.len()
        invariant
            i <= accounts.len(),
            r.deep_view() == accounts.deep_view().take(i as int),
        decreases accounts.len() - i,
    {
        let ghost before = r.deep_view();
        r.push(accounts[i].copy());
        assert(r.deep_view() == before.push(accounts[i as int]@));
        i += 1;
    }
    assert(accounts.deep_view().take(i as int) == accounts.deep_view());
    r
}

/// The positions of the accounts that are shown for a search, in their order.
pub fn visible_accounts(accounts: &Vec<SteamAccount>, query: &str) -> (r: Vec<usize>)
    ensures
        forall|i: int, j: int| 0 <= i < j < r.len() ==> r[i] < r[j],
        forall|k: usize|
            #[trigger] r@.contains(k) <==> k < accounts.len()
                && accounts.deep_view()[k as int].found_by(query@),
{
    let mut r: Vec<usize> = Vec::new();
    let mut n: usize = 0;
    while n < accounts.len()
        invariant
            n <= accounts.len(),
            forall|i: int| 0 <= i < r.len() ==> #[trigger] r[i] < n,
            forall|i: int, j: int| 0 <= i < j < r.len() ==> r[i] < r[j],
            forall|k: usize|
                #[trigger] r@.contains(k) <==> k < n && accounts.deep_view()[k as int].found_by(
                    query@,
                ),
        decreases accounts.len() - n,
    {
        let ghost before = r@;
        if accounts[n].is_found_by(query) {
            r.push(n);
            assert forall|k: usize|
                #[trigger] r@.contains(k) <==> k < n + 1
                    && accounts.deep_view()[k as int].found_by(query@) by {
                assert(before.push(n)[before.len() as int] == n);
                if before.contains(k) {
                    let i = choose|i: int| 0 <= i < before.len() && before[i] == k;
                    assert(r@[i] == k);
                }
                if r@.contains(k) && k != n {
                    let i = choose|i: int| 0 <= i < r@.len() && r@[i] == k;
                    assert(before[i] == k);
                }
            }
        }
        n += 1;
    }
    r
}

/// A search for nothing shows every account.
pub proof fn empty_search_finds_all(a: AccountView)
    ensures
        a.found_by(Seq::empty()),
{
}

/// A search for an account as it is shown finds that account.
pub proof fn search_by_display_name_finds(a: AccountView)
    ensures
        a.found_by(a.display_name()),
{
    let s = lowercase(a.display_name());
    assert(s.subrange(0, s.len() as int) == s);
    assert(infix_at(s, s, 0));
}

/// An entry of the user data directory.
#[derive(Debug)]
pub struct UserdataEntry {
    pub name: String,
    pub is_dir: bool,
}

/// What an entry says.
#[verifier::ext_equal]
pub struct EntryView {
    pub name: Seq<char>,
    pub is_dir: bool,
}

impl View for UserdataEntry {
    type V = EntryView;

    open spec fn view(&self) -> EntryView {
        EntryView { name: self.name@, is_dir: self.is_dir }
    }
}

impl DeepView for UserdataEntry {
    type V = EntryView;

    open spec fn deep_view(&self) -> EntryView {
        self@
    }
}

/// Whether a directory of this name belongs to an account: its name is a
/// number, and not zero.
pub open spec fn names_account(name: Seq<char>) -> bool {
    &&& forall|i: int| 0 <= i < name.len() ==> numeric_char(#[trigger] name[i])
    &&& name != "0"@
}

/// Whether a directory of this name belongs to an account.
pub fn is_account_name(name: &str) -> (r: bool)
    ensures
        r == names_account(name@),
{
    let v: Vec<char> = chars_of(name);
    let mut i: usize = 0;
    while i < v.len()
        invariant
            i <= v.len(),
            v@ == name@,
            forall|k: int| 0 <= k < i ==> numeric_char(#[trigger] name@[k]),
        decreases v.len() - i,
    {
        if !v[i].is_numeric() {
            assert(!numeric_char(name@[i as int]));
            return false;
        }
        i += 1;
    }
    !same_text(name, "0")
}

/// Every number above zero in decimal names an account.
pub proof fn numbers_name_accounts(n: nat)
    requires
        n > 0,
    ensures
        names_account(decimal(n)),
{
    decimal_stands_for(n);
    let d = decimal(n);
    assert forall|i: int| 0 <= i < d.len() implies numeric_char(#[trigger] d[i]) by {
        assert(is_digit(d[i]));
    }
    reveal_strlit("0");
    let zero = seq!['0'];
    assert(zero.drop_last() == Seq::<char>::empty());
    assert(digits_value(zero.drop_last()) == 0);
    assert(digits_value(zero) == 0);
    assert("0"@ == zero);
}

/// The numbers of the accounts among the entries, in the order of the entries.
pub open spec fn ids_of(entries: Seq<EntryView>) -> Seq<Seq<char>>
    decreases entries.len(),
{
    if entries.len() == 0 {
        Seq::empty()
    } else if entries.last().is_dir && names_account(entries.last().name) {
        ids_of(entries.drop_last()).push(entries.last().name)
    } else {
        ids_of(entries.drop_last())
    }
}

/// The numbers of the accounts that have a directory among the entries.
pub fn account_ids(entries: &Vec<UserdataEntry>) -> (r: Vec<String>)
    ensures
        r.deep_view() == ids_of(entries.deep_view()),
{
    let mut r: Vec<String> = Vec::new();
    let mut i: usize = 0;
    assert(r.deep_view() == Seq::<Seq<char>>::empty());
    while i < entries.len()
        invariant
            i <= entries.len(),
            r.deep_view() == ids_of(entries.deep_view().take(i as int)),
        decreases entries.len() - i,
    {
        proof {
            let now = entries.deep_view().take(i + 1);
            assert(now.drop_last() == entries.deep_view().take(i as int));
            assert(now.last() == entries[i as int]@);
        }
        let ghost before = r.deep_view();
        if entries[i].is_dir && is_account_name(entries[i].name.as_str()) {
            r.push(entries[i].name.clone());
            assert(r.deep_view() == before.push(entries[i as int].name@));
        }
        i += 1;
    }
    assert(entries.deep_view().take(i as int) == entries.deep_view());
    r
}

/// What is listed as the number of an account names an account.
pub proof fn listed_ids_name_accounts(entries: Seq<EntryView>, i: int)
    requires
        0 <= i < ids_of(entries).len(),
    ensures
        names_account(ids_of(entries)[i]),
    decreases entries.len(),
{
    if i < ids_of(entries.drop_last()).len() {
        listed_ids_name_accounts(entries.drop_last(), i);
    }
}

/// What is on disk about an account: its local configuration and its conduct
/// summary where they could be read, and whether its picture is in the cache.
#[derive(Debug)]
pub struct AccountFiles {
    pub local_config: Option<String>,
    pub avatar_cached: bool,
    pub conduct: Option<String>,
}

/// What the files of an account say.
#[verifier::ext_equal]
pub struct FilesView {
    pub local_config: Option<Seq<char>>,
    pub avatar_cached: bool,
    pub conduct: Option<Seq<char>>,
}

impl View for AccountFiles {
    type V = FilesView;

    open spec fn view(&self) -> FilesView {
        FilesView {
            local_config: self.local_config.deep_view(),
            avatar_cached: self.avatar_cached,
            conduct: self.conduct.deep_view(),
        }
    }
}

impl DeepView for AccountFiles {
    type V = FilesView;

    open spec fn deep_view(&self) -> FilesView {
        self@
    }
}

/// The name that a match of the name pattern gives; empty where there is none.
pub open spec fn name_in(found: Option<GroupsView>) -> Seq<char> {
    match found {
        Some(groups) => group(groups, 1).unwrap_or(Seq::empty()),
        None => Seq::empty(),
    }
}

/// The name that a local configuration gives an account; empty where it gives
/// none or could not be read.
pub open spec fn local_name(config: Option<Seq<char>>) -> Seq<char> {
    match config {
        Some(text) => name_in(found_first(PERSONA_NAME_PATTERN@, text)),
        None => Seq::empty(),
    }
}

/// Reads the name off a match of the name pattern.
pub fn name_from_match(found: &Option<Groups>) -> (r: String)
    ensures
        r@ == name_in(found.deep_view()),
{
    if let Some(groups) = found {
        if let Some(name) = get_group(groups, 1) {
            return name;
        }
    }
    String::new()
}

/// The name that a local configuration gives an account. It is empty exactly
/// where the configuration could not be read or holds no entry for the name.
pub fn get_account_info_local(config: &Option<String>) -> (r: String)
    ensures
        r@ == local_name(config.deep_view()),
        r@.len() == 0 <==> (config is None || found_first(
            PERSONA_NAME_PATTERN@,
            config->0@,
        ) is None),
{
    match config {
        Some(text) => {
            let found: Option<Groups> = find_first(PERSONA_NAME_PATTERN, text.as_str());
            proof {
                patterns_differ();
                let t = text@;
                if found is Some {
                    let g = found->0.deep_view();
                    let (s, e) = choose|s: int, e: int| #[trigger]
                        leftmost_match(PERSONA_NAME_PATTERN@, t, 0, s, e, g);
                    let o = choose|o: int| #[trigger]
                        quoted_at(t, "PersonaName"@, s, o, e - 1) && g == seq![
                            Some(t.subrange(s, e)),
                            Some(t.subrange(o + 1, e - 1)),
                        ];
                    assert(name_in(Some(g)) == t.subrange(o + 1, e - 1));
                }
            }
            name_from_match(&found)
        },
        None => String::new(),
    }
}

/// The name of the file that holds the picture of an account.
pub open spec fn avatar_name(id: Seq<char>) -> Seq<char> {
    id + ".jpg"@
}

/// The file in the cache that holds the picture of an account.
pub open spec fn avatar_of(cache_dir: PathView, id: Seq<char>) -> PathView {
    cache_dir.join(avatar_name(id))
}

/// The file in the cache that holds the picture of an account.
pub fn avatar_file(cache_dir: &FsPath, id: &str) -> (r: FsPath)
    requires
        cache_dir@.joinable(avatar_name(id@)),
    ensures
        r@ == cache_dir@.join(avatar_name(id@)),
        r@ == avatar_of(cache_dir@, id@),
{
    let mut name: String = id.to_string();
    name.append(".jpg");
    cache_dir.join(name.as_str())
}

/// The picture of an account, where it is in the cache.
pub fn cached_avatar_path(cache_dir: &FsPath, id: &str, cached: bool) -> (r: Option<FsPath>)
    requires
        cache_dir@.joinable(avatar_name(id@)),
    ensures
        r.deep_view() == (if cached {
            Some(cache_dir@.join(avatar_name(id@)))
        } else {
            None
        }),
{
    if cached {
        Some(avatar_file(cache_dir, id))
    } else {
        None
    }
}

/// The file of an account's local configuration.
pub open spec fn local_config_of(userdata: PathView, id: Seq<char>) -> PathView {
    userdata.join(id).below("config/localconfig.vdf"@)
}

/// The file of an account's local configuration.
pub fn local_config_file(userdata: &FsPath, id: &str) -> (r: FsPath)
    requires
        userdata@.joinable(id@),
    ensures
        r@ == userdata@.join(id@).below("config/localconfig.vdf"@),
        r@ == local_config_of(userdata@, id@),
{
    userdata.join(id).below("config/localconfig.vdf")
}

/// The name of the file of an account's latest conduct summary.
pub open spec fn conduct_name(id: Seq<char>) -> Seq<char> {
    "latest_conduct_1."@ + id + ".txt"@
}

/// The file of an account's latest conduct summary.
pub open spec fn conduct_of_account(dota_cfg: PathView, id: Seq<char>) -> PathView {
    dota_cfg.join(conduct_name(id))
}

/// The file of an account's latest conduct summary.
pub fn conduct_file(dota_cfg: &FsPath, id: &str) -> (r: FsPath)
    requires
        dota_cfg@.joinable(conduct_name(id@)),
    ensures
        r@ == dota_cfg@.join(conduct_name(id@)),
        r@ == conduct_of_account(dota_cfg@, id@),
{
    let mut name: String = "latest_conduct_1.".to_string();
    name.append(id);
    name.append(".txt");
    dota_cfg.join(name.as_str())
}

/// The account with this number, as its files describe it.
pub open spec fn account_of(id: Seq<char>, files: FilesView, cache_dir: PathView) -> AccountView {
    AccountView {
        id,
        persona_name: local_name(files.local_config),
        avatar_path: if files.avatar_cached {
            Some(cache_dir.join(avatar_name(id)))
        } else {
            None
        },
        conduct: match files.conduct {
            Some(text) => conduct_of(found_all(CONDUCT_PATTERN@, text)),
            None => None,
        },
    }
}

/// The conduct summary in a file, where the file could be read.
pub fn read_conduct_stats(file: &Option<String>) -> (r: Option<ConductStats>)
    ensures
        r.deep_view() == (match file.deep_view() {
            Some(text) => conduct_of(found_all(CONDUCT_PATTERN@, text)),
            None => None,
        }),
{
    match file {
        Some(text) => parse_conduct_stats(text.as_str()),
        None => None,
    }
}

/// The account with this number, as its files describe it.
pub fn read_account(id: &str, files: &AccountFiles, cache_dir: &FsPath) -> (r: SteamAccount)
    requires
        cache_dir@.joinable(avatar_name(id@)),
    ensures
        r@ == account_of(id@, files@, cache_dir@),
{
    SteamAccount {
        id: id.to_string(),
        persona_name: get_account_info_local(&files.local_config),
        avatar_path: cached_avatar_path(cache_dir, id, files.avatar_cached),
        conduct: read_conduct_stats(&files.conduct),
    }
}

proof fn lemma_plain_ends()
    ensures
        forall|p: Platform| #[trigger] plain(p, "latest_conduct_1."@) && plain(p, ".txt"@) && plain(
            p,
            ".jpg"@,
        ),
        ".txt"@.len() > 2,
        ".jpg"@.len() > 2,
{
    reveal_strlit("latest_conduct_1.");
    reveal_strlit(".txt");
    reveal_strlit(".jpg");
}

/// What names an account leads nowhere else than one name down, and so do the
/// files that are called after it. Of the ASCII characters it holds digits
/// alone; an empty name is no directory's.
pub proof fn account_names_are_plain(name: Seq<char>, dir: PathView)
    requires
        names_account(name),
    ensures
        plain(dir.platform, name),
        name.len() > 0 ==> is_name(dir.platform, name),
        is_name(dir.platform, avatar_name(name)),
        is_name(dir.platform, conduct_name(name)),
        dir.joinable(name),
        dir.joinable(avatar_name(name)),
        dir.joinable(conduct_name(name)),
        forall|i: int| 0 <= i < name.len() && (name[i] as u32) < 128 ==> is_digit(#[trigger] name[i]),
{
    let p = dir.platform;
    assert forall|i: int| 0 <= i < name.len() implies !is_separator(p, #[trigger] name[i])
        && name[i] != ':' && name[i] != '.' by {
        assert(numeric_char(name[i]));
    }
    assert(seq!['.'][0] == '.' && seq!['.', '.'][0] == '.');
    lemma_plain_ends();
    assert(plain(p, "latest_conduct_1."@));
    assert(plain(p, name));
    assert(plain(p, avatar_name(name)));
    assert(plain(p, "latest_conduct_1."@ + name));
    assert(plain(p, conduct_name(name)));
    assert(plain(p, name) && plain(p, avatar_name(name)));
    assert(conduct_name(name).len() > 2);
}

/// The position of the first account with the number, or the number of
/// accounts where there is none.
pub open spec fn position_of(accounts: Seq<AccountView>, id: Seq<char>) -> nat
    decreases accounts.len(),
{
    if accounts.len() == 0 || accounts.first().id == id {
        0
    } else {
        1 + position_of(accounts.drop_first(), id)
    }
}

/// The accounts with an update applied to the first account that it is about.
pub open spec fn with_update(accounts: Seq<AccountView>, u: UpdateView) -> Seq<AccountView> {
    let i = position_of(accounts, u.id) as int;
    if i < accounts.len() {
        accounts.update(i, accounts[i].updated(u))
    } else {
        accounts
    }
}

/// Applies an update to the first account that it is about. Returns whether
/// there is one.
pub fn apply_update(accounts: &mut Vec<SteamAccount>, update: AccountUpdate) -> (r: bool)
    ensures
        final(accounts).deep_view() == with_update(old(accounts).deep_view(), update@),
        r == (position_of(old(accounts).deep_view(), update@.id) < old(accounts).len()),
{
    let ghost all = accounts.deep_view();
    let mut i: usize = 0;
    assert(all.skip(0) == all);
    while i < accounts.len()
        invariant
            i <= accounts.len(),
            all == old(accounts).deep_view(),
            accounts.deep_view() == all,
            position_of(all, update.id@) == i + position_of(all.skip(i as int), update.id@),
        decreases accounts.len() - i,
    {
        if same_text(accounts[i].id.as_str(), update.id.as_str()) {
            let mut changed: SteamAccount = accounts[i].copy();
            let ghost u = update@;
            assert(all.skip(i as int).first() == accounts[i as int]@);
            assert(position_of(all, u.id) == i);
            if let Some(name) = update.persona_name {
                changed.persona_name = name;
            }
            if let Some(path) = update.avatar_path {
                changed.avatar_path = Some(path);
            }
            assert(changed@ == all[i as int].updated(u));
            accounts.set(i, changed);
            assert(accounts.deep_view() == all.update(i as int, all[i as int].updated(u)));
            return true;
        }
        assert(all.skip(i as int).drop_first() == all.skip(i + 1));
        i += 1;
    }
    false
}

proof fn lemma_position(accounts: Seq<AccountView>, id: Seq<char>)
    ensures
        position_of(accounts, id) <= accounts.len(),
        position_of(accounts, id) < accounts.len() ==> accounts[position_of(
            accounts,
            id,
        ) as int].id == id,
        forall|k: int| 0 <= k < position_of(accounts, id) ==> #[trigger] accounts[k].id != id,
    decreases accounts.len(),
{
    if accounts.len() > 0 && accounts.first().id != id {
        let rest = accounts.drop_first();
        lemma_position(rest, id);
        assert forall|k: int| 0 <= k < position_of(accounts, id) implies #[trigger] accounts[k].id
            != id by {
            if k > 0 {
                assert(rest[k - 1].id != id);
            }
        }
    }
}

/// An update is about one account: it changes the first one with its number,
/// and leaves all others, the order, and every number and summary as they are.
pub proof fn update_changes_one_account(accounts: Seq<AccountView>, u: UpdateView)
    ensures
        with_update(accounts, u).len() == accounts.len(),
        forall|k: int|
            0 <= k < accounts.len() ==> {
                &&& #[trigger] with_update(accounts, u)[k].id == accounts[k].id
                &&& with_update(accounts, u)[k].conduct == accounts[k].conduct
                &&& accounts[k].id != u.id ==> with_update(accounts, u)[k] == accounts[k]
            },
        forall|k: int|
            0 <= k < accounts.len() && #[trigger] accounts[k].id == u.id && (forall|j: int|
                0 <= j < k ==> #[trigger] accounts[j].id != u.id) ==> with_update(accounts, u)[k]
                == accounts[k].updated(u),
{
    lemma_position(accounts, u.id);
}

/// The name of an account is the value of the first entry for the name in its
/// local configuration.
pub proof fn local_name_is_the_first_entry(text: Seq<char>, start: int, open: int, close: int)
    requires
        quoted_at(text, "PersonaName"@, start, open, close),
        forall|s: int, o: int, c: int|
            0 <= s < start ==> !#[trigger] quoted_at(text, "PersonaName"@, s, o, c),
    ensures
        local_name(Some(text)) == text.subrange(open + 1, close),
{
    let p = PERSONA_NAME_PATTERN@;
    let groups = seq![
        Some(text.subrange(start, close + 1)),
        Some(text.subrange(open + 1, close)),
    ];
    patterns_differ();
    assert(quoted_at(text, "PersonaName"@, start, open, close + 1 - 1));
    assert(match_at(p, text, start, close + 1, groups));
    lemma_first_match(p, text, start, close + 1, groups);
    first_match_is_determined(p, text, Some(groups), found_first(p, text));
}

/// A local configuration without an entry for the name gives no name.
pub proof fn no_entry_gives_no_name(text: Seq<char>)
    requires
        forall|s: int, o: int, c: int| !#[trigger] quoted_at(text, "PersonaName"@, s, o, c),
    ensures
        local_name(Some(text)) == Seq::<char>::empty(),
{
    let p = PERSONA_NAME_PATTERN@;
    patterns_differ();
    assert(first_match(p, text, None));
    first_match_is_determined(p, text, None, found_first(p, text));
}

} // verus!
