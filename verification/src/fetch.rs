//! Fetching what is missing of an account from its public profile.
//!
//! A fetch asks for one action at a time and takes the reply to it.

use vstd::prelude::*;
use vstd::string::*;

use crate::account::{avatar_file, avatar_name, AccountUpdate, AccountView, SteamAccount, UpdateView};
use crate::numbers::u64_value;
use crate::path::{FsPath, PathView};
use crate::remote::{account_update, avatar_to_fetch, download_avatar, downloads_avatar, fits_community, missing_of, profile_address, profile_info, profile_url, read_profile, update_of, wanted_avatar, Needs, RemoteAccountInfo, RemoteView};

verus! {

/// How far a fetch has come.
#[derive(Debug)]
pub enum FetchStage {
    /// The profile at the address is wanted.
    AskProfile(String),
    /// The profile is known, and the picture at the address is wanted unless it
    /// is in the cache.
    CheckCache(RemoteAccountInfo, String),
    /// The picture at the address is wanted.
    GetPicture(RemoteAccountInfo, String),
    /// The picture is known and wants to be stored.
    StorePicture(RemoteAccountInfo, Vec<u8>),
    /// The fetch is over, with what has become known.
    Ended(Option<AccountUpdate>),
}

/// What a stage says.
pub enum FetchStageView {
    AskProfile(Seq<char>),
    CheckCache(RemoteView, Seq<char>),
    GetPicture(RemoteView, Seq<char>),
    StorePicture(RemoteView, Seq<u8>),
    Ended(Option<UpdateView>),
}

impl View for FetchStage {
    type V = FetchStageView;

    open spec fn view(&self) -> FetchStageView {
        match self {
            FetchStage::AskProfile(url) => FetchStageView::AskProfile(url@),
            FetchStage::CheckCache(remote, url) => FetchStageView::CheckCache(remote@, url@),
            FetchStage::GetPicture(remote, url) => FetchStageView::GetPicture(remote@, url@),
            FetchStage::StorePicture(remote, bytes) => FetchStageView::StorePicture(
                remote@,
                bytes@,
            ),
            FetchStage::Ended(update) => FetchStageView::Ended(update.deep_view()),
        }
    }
}

/// A fetch under way: for which account, what is missing of it, and the file in
/// the cache that its picture belongs in.
#[derive(Debug)]
pub struct FetchJob {
    pub id: String,
    pub needs: Needs,
    pub file: FsPath,
    pub stage: FetchStage,
}

/// What a fetch under way says.
#[verifier::ext_equal]
pub struct FetchView {
    pub id: Seq<char>,
    pub needs: Needs,
    pub file: PathView,
    pub stage: FetchStageView,
}

impl View for FetchJob {
    type V = FetchView;

    open spec fn view(&self) -> FetchView {
        FetchView { id: self.id@, needs: self.needs, file: self.file@, stage: self.stage@ }
    }
}

/// An action that a fetch asks for.
#[derive(Debug)]
pub enum FetchAction {
    /// Request the text at the address.
    GetText(String),
    /// Find out whether the path exists.
    Exists(FsPath),
    /// Request the bytes at the address.
    GetBytes(String),
    /// Store the bytes in the file.
    Store(FsPath, Vec<u8>),
}

/// What an action says.
pub enum FetchActionView {
    GetText(Seq<char>),
    Exists(PathView),
    GetBytes(Seq<char>),
    Store(PathView, Seq<u8>),
}

impl View for FetchAction {
    type V = FetchActionView;

    open spec fn view(&self) -> FetchActionView {
        match self {
            FetchAction::GetText(url) => FetchActionView::GetText(url@),
            FetchAction::Exists(path) => FetchActionView::Exists(path@),
            FetchAction::GetBytes(url) => FetchActionView::GetBytes(url@),
            FetchAction::Store(path, bytes) => FetchActionView::Store(path@, bytes@),
        }
    }
}

impl DeepView for FetchAction {
    type V = FetchActionView;

    open spec fn deep_view(&self) -> FetchActionView {
        self@
    }
}

/// The reply to an action.
#[derive(Debug)]
pub enum FetchReply {
    /// The text, if it could be had.
    Text(Option<String>),
    /// Whether the path exists.
    Exists(bool),
    /// The bytes, if they could be had.
    Bytes(Option<Vec<u8>>),
    /// Whether the bytes could be stored.
    Stored(bool),
}

/// What a reply says.
pub enum FetchReplyView {
    Text(Option<Seq<char>>),
    Exists(bool),
    Bytes(Option<Seq<u8>>),
    Stored(bool),
}

impl View for FetchReply {
    type V = FetchReplyView;

    open spec fn view(&self) -> FetchReplyView {
        match self {
            FetchReply::Text(text) => FetchReplyView::Text(text.deep_view()),
            FetchReply::Exists(exists) => FetchReplyView::Exists(*exists),
            FetchReply::Bytes(bytes) => FetchReplyView::Bytes(
                match bytes {
                    Some(b) => Some(b@),
                    None => None,
                },
            ),
            FetchReply::Stored(stored) => FetchReplyView::Stored(*stored),
        }
    }
}

impl FetchView {
    /// The fetch at another stage.
    pub open spec fn at(self, stage: FetchStageView) -> FetchView {
        FetchView { stage, ..self }
    }

    /// The fetch at its end, with the profile and the picture that was fetched.
    pub open spec fn with(self, remote: RemoteView, fetched: Option<PathView>) -> FetchView {
        self.at(FetchStageView::Ended(update_of(self.id, self.needs, remote, fetched)))
    }

    /// The action that the fetch asks for; none at its end.
    pub open spec fn action(self) -> Option<FetchActionView> {
        match self.stage {
            FetchStageView::AskProfile(url) => Some(FetchActionView::GetText(url)),
            FetchStageView::CheckCache(_, _) => Some(FetchActionView::Exists(self.file)),
            FetchStageView::GetPicture(_, url) => Some(FetchActionView::GetBytes(url)),
            FetchStageView::StorePicture(_, bytes) => Some(
                FetchActionView::Store(self.file, bytes),
            ),
            FetchStageView::Ended(_) => None,
        }
    }

    /// Whether the reply is of the kind that the action has.
    pub open spec fn takes(self, reply: FetchReplyView) -> bool {
        match self.stage {
            FetchStageView::AskProfile(_) => reply is Text,
            FetchStageView::CheckCache(_, _) => reply is Exists,
            FetchStageView::GetPicture(_, _) => reply is Bytes,
            FetchStageView::StorePicture(_, _) => reply is Stored,
            FetchStageView::Ended(_) => false,
        }
    }

    /// The fetch after the reply. Without a profile nothing becomes known. With
    /// one, a picture that is to be fetched is asked for unless it is in the
    /// cache, and stored; where that fails, the rest still counts.
    pub open spec fn after(self, reply: FetchReplyView) -> FetchView {
        match (self.stage, reply) {
            (FetchStageView::AskProfile(_), FetchReplyView::Text(None)) => self.at(
                FetchStageView::Ended(None),
            ),
            (FetchStageView::AskProfile(_), FetchReplyView::Text(Some(text))) => {
                let remote = profile_info(text);
                match avatar_to_fetch(self.needs, remote) {
                    Some(url) => self.at(FetchStageView::CheckCache(remote, url)),
                    None => self.with(remote, None),
                }
            },
            (FetchStageView::CheckCache(remote, _), FetchReplyView::Exists(true)) => self.with(
                remote,
                Some(self.file),
            ),
            (FetchStageView::CheckCache(remote, url), FetchReplyView::Exists(false)) => self.at(
                FetchStageView::GetPicture(remote, url),
            ),
            (FetchStageView::GetPicture(remote, _), FetchReplyView::Bytes(None)) => self.with(
                remote,
                None,
            ),
            (FetchStageView::GetPicture(remote, _), FetchReplyView::Bytes(Some(bytes))) => self.at(
                FetchStageView::StorePicture(remote, bytes),
            ),
            (FetchStageView::StorePicture(remote, _), FetchReplyView::Stored(true)) => self.with(
                remote,
                Some(self.file),
            ),
            (FetchStageView::StorePicture(remote, _), FetchReplyView::Stored(false)) => self.with(
                remote,
                None,
            ),
            _ => self,
        }
    }

    /// What has become known; nothing as long as the fetch is under way.
    pub open spec fn outcome(self) -> Option<UpdateView> {
        match self.stage {
            FetchStageView::Ended(update) => update,
            _ => None,
        }
    }
}

/// Whether a profile is asked for: something is missing of the account, and what
/// it goes by is a number.
pub open spec fn asks_profile(a: AccountView) -> bool {
    a.needs().anything() && profile_address(a.id) is Some
}

/// A fetch at its beginning. It is over at once where no profile is asked for.
pub open spec fn fetch_start(a: AccountView, cache_dir: PathView) -> FetchView {
    FetchView {
        id: a.id,
        needs: a.needs(),
        file: cache_dir.join(avatar_name(a.id)),
        stage: if asks_profile(a) {
            FetchStageView::AskProfile(profile_address(a.id)->0)
        } else {
            FetchStageView::Ended(None)
        },
    }
}

/// Begins to fetch what is missing of an account.
pub fn fetch_account_update(account: &SteamAccount, cache_dir: &FsPath) -> (r: FetchJob)
    requires
        cache_dir@.joinable(avatar_name(account@.id)),
        account@.needs().anything() && u64_value(account@.id) is Some ==> fits_community(
            u64_value(account@.id)->0,
        ),
    ensures
        r@ == fetch_start(account@, cache_dir@),
{
    let needs: Needs = missing_of(account);
    let stage: FetchStage = if needs.any() {
        match profile_url(account.id.as_str()) {
            Some(url) => FetchStage::AskProfile(url),
            None => FetchStage::Ended(None),
        }
    } else {
        FetchStage::Ended(None)
    };
    FetchJob {
        id: account.id.clone(),
        needs,
        file: avatar_file(cache_dir, account.id.as_str()),
        stage,
    }
}

fn copy_bytes(bytes: &Vec<u8>) -> (r: Vec<u8>)
    ensures
        r@ == bytes@,
{
    let mut r: Vec<u8> = Vec::new();
    let mut i: usize = 0;
    while i < bytes.len()
        invariant
            i <= bytes.len(),
            r@ == bytes@.take(i as int),
        decreases bytes.len() - i,
    {
        r.push(bytes[i]);
        i += 1;
    }
    assert(bytes@.take(i as int) == bytes@);
    r
}

impl FetchJob {
    /// The action that the fetch asks for; none at its end.
    pub fn action(&self) -> (r: Option<FetchAction>)
        ensures
            r.deep_view() == self@.action(),
    {
        match &self.stage {
            FetchStage::AskProfile(url) => Some(FetchAction::GetText(url.clone())),
            FetchStage::CheckCache(_, _) => Some(FetchAction::Exists(self.file.copy())),
            FetchStage::GetPicture(_, url) => Some(FetchAction::GetBytes(url.clone())),
            FetchStage::StorePicture(_, bytes) => Some(
                FetchAction::Store(self.file.copy(), copy_bytes(bytes)),
            ),
            FetchStage::Ended(_) => None,
        }
    }

    fn ended(self, remote: RemoteAccountInfo, fetched: Option<FsPath>) -> (r: FetchJob)
        ensures
            r@ == self@.with(remote@, fetched.deep_view()),
    {
        let update: Option<AccountUpdate> = account_update(
            self.id.as_str(),
            self.needs,
            remote,
            fetched,
        );
        FetchJob { id: self.id, needs: self.needs, file: self.file, stage: FetchStage::Ended(update) }
    }

    /// The fetch after the reply to the action.
    pub fn reply(self, reply: FetchReply) -> (r: FetchJob)
        requires
            self@.takes(reply@),
        ensures
            r@ == self@.after(reply@),
    {
        let FetchJob { id, needs, file, stage } = self;
        let copy: FsPath = file.copy();
        let none: FetchStage = FetchStage::Ended(None);
        let job: FetchJob = FetchJob { id, needs, file, stage: none };
        match (stage, reply) {
            (FetchStage::AskProfile(_), FetchReply::Text(Some(text))) => {
                let remote: RemoteAccountInfo = read_profile(text.as_str());
                match wanted_avatar(needs, &remote) {
                    Some(url) => FetchJob {
                        id: job.id,
                        needs,
                        file: job.file,
                        stage: FetchStage::CheckCache(remote, url),
                    },
                    None => job.ended(remote, None),
                }
            },
            (FetchStage::CheckCache(remote, url), FetchReply::Exists(present)) => {
                if downloads_avatar(present) {
                    FetchJob {
                        id: job.id,
                        needs,
                        file: job.file,
                        stage: FetchStage::GetPicture(remote, url),
                    }
                } else {
                    job.ended(remote, download_avatar(copy, present, false))
                }
            },
            (FetchStage::GetPicture(remote, _), FetchReply::Bytes(bytes)) => match bytes {
                Some(b) => FetchJob {
                    id: job.id,
                    needs,
                    file: job.file,
                    stage: FetchStage::StorePicture(remote, b),
                },
                None => job.ended(remote, download_avatar(copy, false, false)),
            },
            (FetchStage::StorePicture(remote, _), FetchReply::Stored(stored)) => job.ended(
                remote,
                download_avatar(copy, false, stored),
            ),
            _ => job,
        }
    }

    /// What has become known; nothing as long as the fetch is under way.
    pub fn outcome(self) -> (r: Option<AccountUpdate>)
        ensures
            r.deep_view() == self@.outcome(),
    {
        match self.stage {
            FetchStage::Ended(update) => update,
            _ => None,
        }
    }
}

/// What a fetch meets with: the profile page and the picture, where they can be
/// had, whether the picture is in the cache, and whether it can be stored.
pub struct Surroundings {
    pub page: Option<Seq<char>>,
    pub cached: bool,
    pub picture: Option<Seq<u8>>,
    pub storable: bool,
}

/// The reply that the surroundings give to an action.
pub open spec fn true_reply(s: Surroundings, action: FetchActionView) -> FetchReplyView {
    match action {
        FetchActionView::GetText(_) => FetchReplyView::Text(s.page),
        FetchActionView::Exists(_) => FetchReplyView::Exists(s.cached),
        FetchActionView::GetBytes(_) => FetchReplyView::Bytes(s.picture),
        FetchActionView::Store(_, _) => FetchReplyView::Stored(s.storable),
    }
}

/// The fetch after `n` replies, or at its end where that comes first.
pub open spec fn run(s: Surroundings, job: FetchView, n: nat) -> FetchView
    decreases n,
{
    match job.action() {
        Some(action) => if n == 0 {
            job
        } else {
            run(s, job.after(true_reply(s, action)), (n - 1) as nat)
        },
        None => job,
    }
}

/// What the fetch asks for in up to `n` steps.
pub open spec fn asked(s: Surroundings, job: FetchView, n: nat) -> Seq<FetchActionView>
    decreases n,
{
    match job.action() {
        Some(action) => if n == 0 {
            Seq::empty()
        } else {
            seq![action] + asked(s, job.after(true_reply(s, action)), (n - 1) as nat)
        },
        None => Seq::empty(),
    }
}

/// What becomes known of an account in the surroundings: what its profile says,
/// where one is asked for and can be had, and its picture, where that is in the
/// cache or can be had and stored.
pub open spec fn expected_update(
    a: AccountView,
    cache_dir: PathView,
    s: Surroundings,
) -> Option<UpdateView> {
    if asks_profile(a) && s.page is Some {
        update_of(
            a.id,
            a.needs(),
            profile_info(s.page->0),
            if s.cached || (s.picture is Some && s.storable) {
                Some(cache_dir.join(avatar_name(a.id)))
            } else {
                None
            },
        )
    } else {
        None
    }
}

/// The picture that is asked for in the surroundings: the one that the profile
/// names, where the account has none and the cache does not either.
pub open spec fn expected_picture(a: AccountView, s: Surroundings) -> Option<Seq<char>> {
    if asks_profile(a) && s.page is Some && !s.cached {
        avatar_to_fetch(a.needs(), profile_info(s.page->0))
    } else {
        None
    }
}

/// A fetch takes at most four replies, and what it ends with is what becomes
/// known of the account.
pub proof fn fetch_gives_the_update(a: AccountView, cache_dir: PathView, s: Surroundings)
    ensures
        run(s, fetch_start(a, cache_dir), 4).action() is None,
        run(s, fetch_start(a, cache_dir), 4).outcome() == expected_update(a, cache_dir, s),
{
    reveal_with_fuel(run, 5);
}

/// Whether an action is a request for bytes, or stores some.
pub open spec fn about_picture(action: FetchActionView) -> bool {
    action is GetBytes || action is Store
}

/// A fetch requests at most one text, the profile page of the account, and that
/// only where one is asked for. It requests at most one picture: the one that
/// is to be had, and none where the account has one or it is in the cache. It
/// stores nothing but that picture, in the file of the account in the cache.
pub proof fn fetch_asks_for_what_is_missing(
    a: AccountView,
    cache_dir: PathView,
    s: Surroundings,
    i: int,
)
    requires
        0 <= i < asked(s, fetch_start(a, cache_dir), 4).len(),
    ensures
        asks_profile(a),
        match asked(s, fetch_start(a, cache_dir), 4)[i] {
            FetchActionView::GetText(url) => i == 0 && Some(url) == profile_address(a.id),
            FetchActionView::Exists(file) => i == 1 && a.needs().avatar && file == cache_dir.join(
                avatar_name(a.id),
            ),
            FetchActionView::GetBytes(url) => i == 2 && Some(url) == expected_picture(a, s),
            FetchActionView::Store(file, bytes) => i == 3 && expected_picture(a, s) is Some
                && file == cache_dir.join(avatar_name(a.id)) && Some(bytes) == s.picture,
        },
{
    reveal_with_fuel(asked, 5);
}

/// Nothing is asked for on behalf of an account of which nothing is missing, and
/// nothing becomes known of it.
pub proof fn complete_accounts_ask_nothing(a: AccountView, cache_dir: PathView)
    requires
        !a.needs().anything(),
    ensures
        fetch_start(a, cache_dir).action() is None,
        fetch_start(a, cache_dir).outcome() is None,
{
}

/// A picture that the account has or the cache holds is neither requested nor
/// stored again.
pub proof fn known_pictures_are_not_fetched(
    a: AccountView,
    cache_dir: PathView,
    s: Surroundings,
    i: int,
)
    requires
        !a.needs().avatar || s.cached,
        0 <= i < asked(s, fetch_start(a, cache_dir), 4).len(),
    ensures
        !about_picture(asked(s, fetch_start(a, cache_dir), 4)[i]),
{
    fetch_asks_for_what_is_missing(a, cache_dir, s, i);
}

} // verus!
