//! The state of the tool, and what its window shows and does.

use vstd::prelude::*;
use vstd::string::*;

use crate::account::{account_names_are_plain, apply_update, copy_accounts, names_account, position_of, update_changes_one_account, with_update, AccountUpdate, AccountView, SteamAccount, UpdateView};
use crate::account_order::{ids_differ, updates_keep_ids_different};
use crate::conduct::{ConductStats, ConductView};
use crate::copy::{copy_dota_config, copy_leaves_the_source, copy_start, written_by, CopyJob, ReplyView, StageView};
use crate::path::{is_name, FsPath, PathView};

verus! {

/// The state of the tool.
#[derive(Debug)]
pub struct DotaToolsApp {
    pub accounts: Vec<SteamAccount>,
    pub selected_source_idx: Option<usize>,
    pub selected_target_idx: Option<usize>,
    pub source_search: String,
    pub target_search: String,
    pub status_message: String,
    pub steam_userdata_path: Option<FsPath>,
    pub dota_cfg_path: Option<FsPath>,
    /// Whether updates of the accounts may still arrive.
    pub updates_pending: bool,
    pub loading: bool,
}

/// What the state of the tool says.
#[verifier::ext_equal]
pub struct AppView {
    pub accounts: Seq<AccountView>,
    pub source: Option<usize>,
    pub target: Option<usize>,
    pub source_search: Seq<char>,
    pub target_search: Seq<char>,
    pub status: Seq<char>,
    pub userdata: Option<PathView>,
    pub dota_cfg: Option<PathView>,
    pub updates_pending: bool,
    pub loading: bool,
}

impl View for DotaToolsApp {
    type V = AppView;

    open spec fn view(&self) -> AppView {
        AppView {
            accounts: self.accounts.deep_view(),
            source: self.selected_source_idx,
            target: self.selected_target_idx,
            source_search: self.source_search@,
            target_search: self.target_search@,
            status: self.status_message@,
            userdata: self.steam_userdata_path.deep_view(),
            dota_cfg: self.dota_cfg_path.deep_view(),
            updates_pending: self.updates_pending,
            loading: self.loading,
        }
    }
}

/// Whether a selection is one of the accounts.
pub open spec fn selectable(accounts: Seq<AccountView>, selected: Option<usize>) -> bool {
    selected matches Some(i) ==> i < accounts.len()
}

impl AppView {
    /// Whether both selections, where they are made, are among the accounts.
    pub open spec fn well_formed(self) -> bool {
        selectable(self.accounts, self.source) && selectable(self.accounts, self.target)
    }

    /// The selection of a side.
    pub open spec fn selected(self, side: Side) -> Option<usize> {
        match side {
            Side::Source => self.source,
            Side::Target => self.target,
        }
    }
}

/// The two sides of a copy.
#[derive(Clone, Copy, Debug, PartialEq, Eq, Structural)]
pub enum Side {
    Source,
    Target,
}

/// What the middle of the window shows.
#[derive(Clone, Copy, Debug, PartialEq, Eq, Structural)]
pub enum MainPanel {
    Loading,
    NoAccounts,
    Columns,
}

/// What is pointed out at the top of the window: that profiles are being
/// fetched, and that Dota 2 was not found.
#[derive(Clone, Copy, Debug, PartialEq, Eq, Structural)]
pub struct Notices {
    pub fetching: bool,
    pub dota_missing: bool,
}

/// When the window is to be drawn again: at once, or after a while.
#[derive(Clone, Copy, Debug, PartialEq, Eq, Structural)]
pub struct Repaint {
    pub now: bool,
    pub later: bool,
}

/// What is shown below the selection of a side.
#[derive(Debug)]
pub enum Card {
    /// No account is selected.
    Placeholder,
    /// The account has no conduct summary.
    NoConduct,
    /// The summary of the account.
    Conduct(ConductStats),
}

/// What a card says.
pub enum CardView {
    Placeholder,
    NoConduct,
    Conduct(ConductView),
}

impl View for Card {
    type V = CardView;

    open spec fn view(&self) -> CardView {
        match self {
            Card::Placeholder => CardView::Placeholder,
            Card::NoConduct => CardView::NoConduct,
            Card::Conduct(c) => CardView::Conduct(c@),
        }
    }
}

/// The card of a selection.
pub open spec fn card_of(accounts: Seq<AccountView>, selected: Option<usize>) -> CardView {
    match selected {
        Some(i) => match accounts[i as int].conduct {
            Some(c) => CardView::Conduct(c),
            None => CardView::NoConduct,
        },
        None => CardView::Placeholder,
    }
}

/// What stands beside the selection of a side.
#[derive(Debug)]
pub enum AvatarSlot {
    /// No account is selected.
    Blank,
    /// The account has no picture.
    Unknown,
    /// The picture at the address.
    Picture(String),
}

/// What a picture slot says.
pub enum SlotView {
    Blank,
    Unknown,
    Picture(Seq<char>),
}

impl View for AvatarSlot {
    type V = SlotView;

    open spec fn view(&self) -> SlotView {
        match self {
            AvatarSlot::Blank => SlotView::Blank,
            AvatarSlot::Unknown => SlotView::Unknown,
            AvatarSlot::Picture(uri) => SlotView::Picture(uri@),
        }
    }
}

/// The picture slot of a selection.
pub open spec fn slot_of(accounts: Seq<AccountView>, selected: Option<usize>) -> SlotView {
    match selected {
        Some(i) => match accounts[i as int].avatar_uri() {
            Some(uri) => SlotView::Picture(uri),
            None => SlotView::Unknown,
        },
        None => SlotView::Blank,
    }
}

/// How a selection is shown.
pub open spec fn selection_text_of(accounts: Seq<AccountView>, selected: Option<usize>) -> Seq<char> {
    match selected {
        Some(i) => accounts[i as int].display_name(),
        None => "Select account…"@,
    }
}

/// The card of a selection.
pub fn selection_card(accounts: &Vec<SteamAccount>, selected: Option<usize>) -> (r: Card)
    requires
        selectable(accounts.deep_view(), selected),
    ensures
        r@ == card_of(accounts.deep_view(), selected),
        selected is None ==> r is Placeholder,
        selected matches Some(i) ==> match accounts[i as int].conduct {
            Some(c) => r is Conduct && r->Conduct_0@ == c@,
            None => r is NoConduct,
        },
{
    match selected {
        Some(i) => match &accounts[i].conduct {
            Some(c) => Card::Conduct(c.copy()),
            None => Card::NoConduct,
        },
        None => Card::Placeholder,
    }
}

/// The picture slot of a selection.
pub fn selection_avatar(accounts: &Vec<SteamAccount>, selected: Option<usize>) -> (r: AvatarSlot)
    requires
        selectable(accounts.deep_view(), selected),
    ensures
        r@ == slot_of(accounts.deep_view(), selected),
{
    match selected {
        Some(i) => match accounts[i].avatar_uri() {
            Some(uri) => AvatarSlot::Picture(uri),
            None => AvatarSlot::Unknown,
        },
        None => AvatarSlot::Blank,
    }
}

/// How a selection is shown: as its account, or as an invitation to select.
pub fn selection_text(accounts: &Vec<SteamAccount>, selected: Option<usize>) -> (r: String)
    requires
        selectable(accounts.deep_view(), selected),
    ensures
        r@ == selection_text_of(accounts.deep_view(), selected),
{
    match selected {
        Some(i) => accounts[i].display_name(),
        None => "Select account…".to_string(),
    }
}

/// Whether a list of accounts that is open is to be closed: a button of the
/// pointer was pressed, at a known place, and neither on the list nor on the
/// button that opens it.
pub fn closes_list(pressed: bool, place_known: bool, on_button: bool, on_list: bool) -> (r: bool)
    ensures
        r == (pressed && place_known && !on_button && !on_list),
{
    pressed && place_known && !on_button && !on_list
}

/// The accounts after several updates, one after the other.
pub open spec fn with_updates(accounts: Seq<AccountView>, updates: Seq<UpdateView>) -> Seq<AccountView>
    decreases updates.len(),
{
    if updates.len() == 0 {
        accounts
    } else {
        with_update(with_updates(accounts, updates.drop_last()), updates.last())
    }
}

/// Whether one of the updates is about one of the accounts.
pub open spec fn any_applies(accounts: Seq<AccountView>, updates: Seq<UpdateView>) -> bool {
    exists|i: int|
        0 <= i < updates.len() && position_of(accounts, #[trigger] updates[i].id) < accounts.len()
}

/// The settings to copy: below which directory, from which account to which,
/// and by what names the two go.
#[derive(Debug)]
pub struct CopyRequest {
    pub base: FsPath,
    pub source_id: String,
    pub target_id: String,
    pub source_name: String,
    pub target_name: String,
}

/// What a request says.
#[verifier::ext_equal]
pub struct RequestView {
    pub base: PathView,
    pub source_id: Seq<char>,
    pub target_id: Seq<char>,
    pub source_name: Seq<char>,
    pub target_name: Seq<char>,
}

impl View for CopyRequest {
    type V = RequestView;

    open spec fn view(&self) -> RequestView {
        RequestView {
            base: self.base@,
            source_id: self.source_id@,
            target_id: self.target_id@,
            source_name: self.source_name@,
            target_name: self.target_name@,
        }
    }
}

impl DeepView for CopyRequest {
    type V = RequestView;

    open spec fn deep_view(&self) -> RequestView {
        self@
    }
}

impl CopyRequest {
    /// Begins the copy that is asked for.
    pub fn begin(&self) -> (r: CopyJob)
        requires
            self@.base.joinable(self@.source_id),
            self@.base.joinable(self@.target_id),
        ensures
            r@ == copy_start(self@.base, self@.source_id, self@.target_id),
    {
        copy_dota_config(&self.base, self.source_id.as_str(), self.target_id.as_str())
    }
}

impl AppView {
    /// The state with another status.
    pub open spec fn with_status(self, status: Seq<char>) -> AppView {
        AppView { status, ..self }
    }

    /// The settings to copy as things stand; none unless two different
    /// accounts are selected and the user data was found.
    pub open spec fn copy_request(self) -> Option<RequestView> {
        match (self.source, self.target, self.userdata) {
            (Some(s), Some(t), Some(base)) => if s == t {
                None
            } else {
                let source = self.accounts[s as int];
                let target = self.accounts[t as int];
                Some(
                    RequestView {
                        base,
                        source_id: source.id,
                        target_id: target.id,
                        source_name: source.persona_name,
                        target_name: target.persona_name,
                    },
                )
            },
            _ => None,
        }
    }

    /// The status after the copy was asked for: why there is none, where the
    /// selections do not allow one, and else as it was.
    pub open spec fn status_after_click(self) -> Seq<char> {
        match (self.source, self.target) {
            (Some(s), Some(t)) => if s == t {
                "⚠ Source and Target are the same account."@
            } else {
                self.status
            },
            _ => "Please select both Source and Target accounts."@,
        }
    }
}

impl AppView {
    /// The tool at its start, with what was found.
    pub open spec fn started(
        userdata: Option<PathView>,
        dota_cfg: Option<PathView>,
        accounts: Seq<AccountView>,
    ) -> AppView {
        let found = userdata is Some;
        AppView {
            accounts: if found { accounts } else { Seq::empty() },
            source: None,
            target: None,
            source_search: Seq::empty(),
            target_search: Seq::empty(),
            status: if found { "Ready"@ } else { "Steam userdata not found!"@ },
            userdata,
            dota_cfg: if found { dota_cfg } else { None },
            updates_pending: found && accounts.len() > 0,
            loading: false,
        }
    }

    /// The state with an account selected for a side.
    pub open spec fn selecting(self, side: Side, index: usize) -> AppView {
        match side {
            Side::Source => AppView { source: Some(index), ..self },
            Side::Target => AppView { target: Some(index), ..self },
        }
    }

    /// The state in which updates may arrive.
    pub open spec fn awaiting(self) -> AppView {
        AppView { updates_pending: true, ..self }
    }

    /// The state after updates have arrived, and perhaps the last of them.
    pub open spec fn arrived(self, updates: Seq<UpdateView>, disconnected: bool) -> AppView {
        if self.updates_pending {
            AppView {
                accounts: with_updates(self.accounts, updates),
                updates_pending: !disconnected,
                ..self
            }
        } else {
            self
        }
    }

    /// What the middle of the window shows.
    pub open spec fn panel(self) -> MainPanel {
        if self.loading {
            MainPanel::Loading
        } else if self.accounts.len() == 0 {
            MainPanel::NoAccounts
        } else {
            MainPanel::Columns
        }
    }
}

/// The status after a copy has ended, with what went wrong where it failed.
pub open spec fn status_after_copy(request: RequestView, error: Option<Seq<char>>) -> Seq<char> {
    match error {
        None => "✓ Copied from "@ + request.source_name + " → "@ + request.target_name,
        Some(e) => "✗ Error: "@ + e,
    }
}

impl DotaToolsApp {
    /// The tool at its start, with the accounts found in the user data, whose
    /// profiles are fetched where there are any. Without user data it has no
    /// accounts and no configuration of Dota 2, and says so.
    pub fn new(
        steam_userdata_path: Option<FsPath>,
        dota_cfg_path: Option<FsPath>,
        accounts: Vec<SteamAccount>,
    ) -> (r: DotaToolsApp)
        ensures
            r@ == (AppView {
                accounts: if steam_userdata_path is Some {
                    accounts.deep_view()
                } else {
                    Seq::empty()
                },
                source: None,
                target: None,
                source_search: Seq::empty(),
                target_search: Seq::empty(),
                status: if steam_userdata_path is Some {
                    "Ready"@
                } else {
                    "Steam userdata not found!"@
                },
                userdata: steam_userdata_path.deep_view(),
                dota_cfg: if steam_userdata_path is Some {
                    dota_cfg_path.deep_view()
                } else {
                    None
                },
                updates_pending: steam_userdata_path is Some && accounts.len() > 0,
                loading: false,
            }),
            r@ == AppView::started(
                steam_userdata_path.deep_view(),
                dota_cfg_path.deep_view(),
                accounts.deep_view(),
            ),
            r@.well_formed(),
    {
        let found: bool = steam_userdata_path.is_some();
        let none: Vec<SteamAccount> = Vec::new();
        assert(none.deep_view() == Seq::<AccountView>::empty());
        let mut app: DotaToolsApp = DotaToolsApp {
            accounts: if found { accounts } else { none },
            selected_source_idx: None,
            selected_target_idx: None,
            source_search: String::new(),
            target_search: String::new(),
            status_message: if found {
                "Ready".to_string()
            } else {
                "Steam userdata not found!".to_string()
            },
            steam_userdata_path,
            dota_cfg_path: if found { dota_cfg_path } else { None },
            updates_pending: false,
            loading: true,
        };
        if app.accounts.len() > 0 {
            let _ = app.spawn_account_updates();
        }
        app.loading = false;
        app
    }

    /// The accounts whose profiles are to be fetched, which is every account.
    /// From now on updates may arrive.
    pub fn spawn_account_updates(&mut self) -> (r: Vec<SteamAccount>)
        ensures
            r.deep_view() == old(self)@.accounts,
            final(self)@ == (AppView { updates_pending: true, ..old(self)@ }),
            final(self)@ == old(self)@.awaiting(),
    {
        self.updates_pending = true;
        copy_accounts(&self.accounts)
    }

    /// Takes the updates that have arrived, and whether no more can arrive.
    /// Says when to draw the window again.
    pub fn apply_account_updates(&mut self, updates: Vec<AccountUpdate>, disconnected: bool) -> (r:
        Repaint)
        ensures
            old(self)@.well_formed() ==> final(self)@.well_formed(),
            final(self)@ == old(self)@.arrived(updates.deep_view(), disconnected),
            old(self)@.updates_pending ==> {
                &&& final(self)@ == (AppView {
                    accounts: with_updates(old(self)@.accounts, updates.deep_view()),
                    updates_pending: !disconnected,
                    ..old(self)@
                })
                &&& r == (Repaint {
                    now: any_applies(old(self)@.accounts, updates.deep_view()),
                    later: !disconnected,
                })
            },
            !old(self)@.updates_pending ==> {
                &&& final(self)@ == old(self)@
                &&& r == (Repaint { now: false, later: false })
            },
    {
        if !self.updates_pending {
            return Repaint { now: false, later: false };
        }
        let ghost before = self@;
        let ghost us = updates.deep_view();
        let mut now: bool = false;
        let mut rest: Vec<AccountUpdate> = updates;
        let ghost mut done: int = 0;
        assert(us.take(0) == Seq::<UpdateView>::empty());
        while rest.len() > 0
            invariant
                0 <= done <= us.len(),
                rest.deep_view() == us.skip(done),
                self@ == (AppView {
                    accounts: with_updates(before.accounts, us.take(done)),
                    ..before
                }),
                now == any_applies(before.accounts, us.take(done)),
            decreases rest.len(),
        {
            let ghost left = rest.deep_view();
            assert(left[0] == rest@[0]@);
            let update: AccountUpdate = rest.remove(0);
            let ghost u = update@;
            let ghost so_far = self@.accounts;
            assert(rest.deep_view() == left.drop_first());
            assert(u == us[done]);
            let hit: bool = apply_update(&mut self.accounts, update);
            proof {
                let t = us.take(done + 1);
                assert(t.drop_last() == us.take(done));
                assert(t.last() == u);
                assert(us.skip(done).drop_first() == us.skip(done + 1));
                lemma_updates_keep_ids(before.accounts, us.take(done));
                lemma_same_ids_same_position(before.accounts, so_far, u.id);
                if any_applies(before.accounts, us.take(done)) {
                    let i = choose|i: int|
                        0 <= i < us.take(done).len() && position_of(
                            before.accounts,
                            #[trigger] us.take(done)[i].id,
                        ) < before.accounts.len();
                    assert(t[i] == us.take(done)[i]);
                }
                if hit {
                    assert(t[done] == u);
                }
                if any_applies(before.accounts, t) && !hit {
                    let i = choose|i: int|
                        0 <= i < t.len() && position_of(before.accounts, #[trigger] t[i].id)
                            < before.accounts.len();
                    assert(us.take(done)[i] == t[i]);
                }
                done = done + 1;
            }
            if hit {
                now = true;
            }
        }
        assert(us.take(done) == us);
        proof {
            lemma_updates_keep_ids(before.accounts, us);
        }
        if disconnected {
            self.updates_pending = false;
        }
        Repaint { now, later: self.updates_pending }
    }

    /// Selects an account for a side. Returns whether the selection changed.
    pub fn select(&mut self, side: Side, index: usize) -> (r: bool)
        ensures
            r == (old(self)@.selected(side) != Some(index)),
            old(self)@.well_formed() && index < old(self)@.accounts.len()
                ==> final(self)@.well_formed(),
            final(self)@ == (match side {
                Side::Source => AppView { source: Some(index), ..old(self)@ },
                Side::Target => AppView { target: Some(index), ..old(self)@ },
            }),
            final(self)@ == old(self)@.selecting(side, index),
    {
        let changed: bool = match self.selected(side) {
            Some(before) => before != index,
            None => true,
        };
        match side {
            Side::Source => {
                self.selected_source_idx = Some(index);
            },
            Side::Target => {
                self.selected_target_idx = Some(index);
            },
        }
        changed
    }

    /// The selection of a side.
    pub fn selected(&self, side: Side) -> (r: Option<usize>)
        ensures
            r == self@.selected(side),
    {
        match side {
            Side::Source => self.selected_source_idx,
            Side::Target => self.selected_target_idx,
        }
    }

    /// What the middle of the window shows.
    pub fn main_panel(&self) -> (r: MainPanel)
        ensures
            r == (if self@.loading {
                MainPanel::Loading
            } else if self@.accounts.len() == 0 {
                MainPanel::NoAccounts
            } else {
                MainPanel::Columns
            }),
            r == self@.panel(),
    {
        if self.loading {
            MainPanel::Loading
        } else if self.accounts.len() == 0 {
            MainPanel::NoAccounts
        } else {
            MainPanel::Columns
        }
    }

    /// What is pointed out at the top of the window.
    pub fn notices(&self) -> (r: Notices)
        ensures
            r == (Notices {
                fetching: self@.updates_pending,
                dota_missing: self@.dota_cfg is None,
            }),
    {
        Notices { fetching: self.updates_pending, dota_missing: self.dota_cfg_path.is_none() }
    }

    /// The user asks for the copy. Returns what to copy, or says in the status
    /// why there is nothing.
    pub fn copy_clicked(&mut self) -> (r: Option<CopyRequest>)
        requires
            old(self)@.well_formed(),
        ensures
            r.deep_view() == old(self)@.copy_request(),
            final(self)@ == old(self)@.with_status(old(self)@.status_after_click()),
            final(self)@.well_formed(),
    {
        match (self.selected_source_idx, self.selected_target_idx) {
            (Some(s), Some(t)) => {
                if s == t {
                    self.status_message = "⚠ Source and Target are the same account.".to_string();
                    return None;
                }
                match &self.steam_userdata_path {
                    Some(base) => Some(
                        CopyRequest {
                            base: base.copy(),
                            source_id: self.accounts[s].id.clone(),
                            target_id: self.accounts[t].id.clone(),
                            source_name: self.accounts[s].persona_name.clone(),
                            target_name: self.accounts[t].persona_name.clone(),
                        },
                    ),
                    None => None,
                }
            },
            _ => {
                self.status_message = "Please select both Source and Target accounts.".to_string();
                None
            },
        }
    }

    /// The copy has ended, with what went wrong where it failed.
    pub fn copy_finished(&mut self, request: &CopyRequest, error: &Option<String>)
        ensures
            final(self)@ == old(self)@.with_status(
                status_after_copy(request@, error.deep_view()),
            ),
    {
        match error {
            None => {
                let mut s: String = "✓ Copied from ".to_string();
                s.append(request.source_name.as_str());
                s.append(" → ");
                s.append(request.target_name.as_str());
                self.status_message = s;
            },
            Some(e) => {
                let mut s: String = "✗ Error: ".to_string();
                s.append(e.as_str());
                self.status_message = s;
            },
        }
    }
}

proof fn lemma_updates_keep_ids(accounts: Seq<AccountView>, updates: Seq<UpdateView>)
    ensures
        with_updates(accounts, updates).len() == accounts.len(),
        forall|k: int|
            0 <= k < accounts.len() ==> #[trigger] with_updates(accounts, updates)[k].id
                == accounts[k].id,
    decreases updates.len(),
{
    if updates.len() > 0 {
        let before = with_updates(accounts, updates.drop_last());
        lemma_updates_keep_ids(accounts, updates.drop_last());
        update_changes_one_account(before, updates.last());
        assert forall|k: int| 0 <= k < accounts.len() implies #[trigger] with_updates(
            accounts,
            updates,
        )[k].id == accounts[k].id by {
            assert(before[k].id == accounts[k].id);
            assert(with_update(before, updates.last())[k].id == before[k].id);
        }
    }
}

proof fn lemma_same_ids_same_position(
    one: Seq<AccountView>,
    other: Seq<AccountView>,
    id: Seq<char>,
)
    requires
        one.len() == other.len(),
        forall|k: int| 0 <= k < one.len() ==> (#[trigger] other[k]).id == one[k].id,
    ensures
        position_of(one, id) == position_of(other, id),
    decreases one.len(),
{
    if one.len() > 0 {
        assert(other[0].id == one[0].id);
        let x = one.drop_first();
        let y = other.drop_first();
        assert forall|k: int| 0 <= k < x.len() implies (#[trigger] y[k]).id == x[k].id by {
            assert(other[k + 1].id == one[k + 1].id);
        }
        lemma_same_ids_same_position(x, y, id);
    }
}

/// Updates add no account, drop none, and leave every account its place and
/// its number, so that a selection goes on to mean the same account.
pub proof fn updates_keep_the_accounts(accounts: Seq<AccountView>, updates: Seq<UpdateView>)
    ensures
        with_updates(accounts, updates).len() == accounts.len(),
        forall|k: int|
            0 <= k < accounts.len() ==> #[trigger] with_updates(accounts, updates)[k].id
                == accounts[k].id,
        ids_differ(accounts) ==> ids_differ(with_updates(accounts, updates)),
        all_named(accounts) ==> all_named(with_updates(accounts, updates)),
{
    lemma_updates_keep_ids(accounts, updates);
    lemma_updates_differ(accounts, updates);
    let now = with_updates(accounts, updates);
    if all_named(accounts) {
        assert forall|i: int| 0 <= i < now.len() implies names_account(
            (#[trigger] now[i]).id,
        ) by {
            assert(now[i].id == accounts[i].id);
            assert(names_account(accounts[i].id));
        }
    }
}

proof fn lemma_updates_differ(accounts: Seq<AccountView>, updates: Seq<UpdateView>)
    ensures
        ids_differ(accounts) ==> ids_differ(with_updates(accounts, updates)),
    decreases updates.len(),
{
    if updates.len() > 0 && ids_differ(accounts) {
        lemma_updates_differ(accounts, updates.drop_last());
        updates_keep_ids_different(
            with_updates(accounts, updates.drop_last()),
            updates.last(),
        );
    }
}

/// Whether the number of every account names an account.
pub open spec fn all_named(accounts: Seq<AccountView>) -> bool {
    forall|i: int| 0 <= i < accounts.len() ==> names_account((#[trigger] accounts[i]).id)
}

/// Where the numbers of the accounts name accounts, the copy that is asked for
/// can begin. The accounts that are listed are such, and updates keep them so.
pub proof fn requested_copies_can_begin(app: AppView)
    requires
        app.well_formed(),
        all_named(app.accounts),
    ensures
        app.copy_request() matches Some(request) ==> {
            &&& request.base.joinable(request.source_id)
            &&& request.base.joinable(request.target_id)
        },
{
    if let Some(request) = app.copy_request() {
        assert(names_account(app.accounts[app.source->0 as int].id));
        assert(names_account(app.accounts[app.target->0 as int].id));
        account_names_are_plain(request.source_id, request.base);
        account_names_are_plain(request.target_id, request.base);
    }
}

/// A copy is only ever asked for between two accounts with different numbers.
pub proof fn requests_are_between_two_accounts(app: AppView)
    requires
        app.well_formed(),
        ids_differ(app.accounts),
    ensures
        app.copy_request() matches Some(request) ==> request.source_id != request.target_id,
{
    match (app.source, app.target) {
        (Some(s), Some(t)) => {
            if s < t {
                assert(app.accounts[s as int].id != app.accounts[t as int].id);
            } else if t < s {
                assert(app.accounts[t as int].id != app.accounts[s as int].id);
            }
        },
        _ => {},
    }
}

/// Where the number of every account is one name, and every entry is called by
/// one, the copy that is asked for writes, at every stage, to nothing in the
/// settings of its source.
pub proof fn requested_copies_leave_the_source(app: AppView, stage: StageView)
    requires
        app.well_formed(),
        ids_differ(app.accounts),
        app.copy_request() is Some,
        forall|i: int|
            0 <= i < app.accounts.len() ==> is_name(
                app.userdata->0.platform,
                (#[trigger] app.accounts[i]).id,
            ),
        stage matches StageView::CopyFile(name) ==> is_name(app.userdata->0.platform, name),
    ensures
        ({
            let request = app.copy_request()->0;
            let job = copy_start(request.base, request.source_id, request.target_id);
            let action = job.at(stage).action();
            action is Some && written_by(action->0) is Some ==> !written_by(action->0)->0.within(
                job.source,
            )
        }),
{
    let request = app.copy_request()->0;
    requests_are_between_two_accounts(app);
    copy_leaves_the_source(request.base, request.source_id, request.target_id, stage);
}

/// A copy from an account without settings ends at once, and the status then
/// says so, with the path of the settings in quotes.
pub proof fn missing_source_is_told(request: RequestView, quoted: Seq<char>)
    ensures
        ({
            let start = copy_start(request.base, request.source_id, request.target_id);
            let end = start.after(ReplyView::Exists(false));
            &&& end.action() is None
            &&& end.stage matches StageView::Broken(e) && status_after_copy(
                request,
                Some(e.text(quoted)),
            ) == "✗ Error: "@ + ("Source config directory not found: "@ + quoted)
        }),
{
}

/// With two different accounts selected and the user data found, a click asks
/// for the copy and leaves the status as it is; in no other case is a copy
/// asked for.
pub proof fn copy_is_asked_for_when_possible(app: AppView)
    ensures
        app.copy_request() is Some <==> app.source is Some && app.target is Some && app.source
            != app.target && app.userdata is Some,
        app.copy_request() is Some ==> app.status_after_click() == app.status,
{
}

} // verus!
