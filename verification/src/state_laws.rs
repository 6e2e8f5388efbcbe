//! What holds of every state of the tool: what its window shows, and what comes
//! of what the user does.

use vstd::prelude::*;

use crate::account::{position_of, with_update, AccountView, UpdateView};
use crate::account_laws::updates_go_by_the_number;
use crate::conduct::ConductStats;
use crate::path::PathView;
use crate::state::{any_applies, card_of, selectable, selection_text_of, slot_of, status_after_copy, with_updates, AppView, AvatarSlot, Card, CardView, CopyRequest, DotaToolsApp, MainPanel, RequestView, Side, SlotView};

verus! {

/// The state of the tool says what its fields hold.
pub proof fn the_tool_says_its_fields(app: DotaToolsApp)
    ensures
        app@.accounts.len() == app.accounts.len(),
        forall|i: int|
            0 <= i < app.accounts.len() ==> #[trigger] app@.accounts[i] == app.accounts[i]@,
        app@.source == app.selected_source_idx,
        app@.target == app.selected_target_idx,
        app@.source_search == app.source_search@,
        app@.target_search == app.target_search@,
        app@.status == app.status_message@,
        app@.userdata is Some <==> app.steam_userdata_path is Some,
        app.steam_userdata_path is Some ==> app@.userdata->0 == app.steam_userdata_path->0@,
        app@.dota_cfg is Some <==> app.dota_cfg_path is Some,
        app.dota_cfg_path is Some ==> app@.dota_cfg->0 == app.dota_cfg_path->0@,
        app@.updates_pending == app.updates_pending,
        app@.loading == app.loading,
{
}

/// A request, a card and a picture slot say what they hold.
pub proof fn answers_say_what_they_hold(r: CopyRequest, c: ConductStats, uri: String)
    ensures
        r.deep_view() == r@,
        r@.base == r.base@,
        r@.source_id == r.source_id@,
        r@.target_id == r.target_id@,
        r@.source_name == r.source_name@,
        r@.target_name == r.target_name@,
        Card::Placeholder@ == CardView::Placeholder,
        Card::NoConduct@ == CardView::NoConduct,
        Card::Conduct(c)@ == CardView::Conduct(c@),
        AvatarSlot::Blank@ == SlotView::Blank,
        AvatarSlot::Unknown@ == SlotView::Unknown,
        AvatarSlot::Picture(uri)@ == SlotView::Picture(uri@),
{
}

/// The card is that of the selected account: its own summary where it has one,
/// and a notice where it has none. Without a selection it is a placeholder.
pub proof fn cards_are_of_the_selected(accounts: Seq<AccountView>, i: usize)
    requires
        i < accounts.len(),
    ensures
        accounts[i as int].conduct matches Some(c) ==> card_of(accounts, Some(i))
            == CardView::Conduct(c),
        accounts[i as int].conduct is None ==> card_of(accounts, Some(i)) == CardView::NoConduct,
        card_of(accounts, None) == CardView::Placeholder,
{
}

/// The picture is that of the selected account, by the path of its file; a mark
/// stands for one that is missing, and nothing for no selection.
pub proof fn pictures_are_of_the_selected(accounts: Seq<AccountView>, i: usize)
    requires
        i < accounts.len(),
    ensures
        accounts[i as int].avatar_path matches Some(p) ==> slot_of(accounts, Some(i))
            == SlotView::Picture("file://"@ + (p.root + p.body)),
        accounts[i as int].avatar_path is None ==> slot_of(accounts, Some(i)) == SlotView::Unknown,
        slot_of(accounts, None) == SlotView::Blank,
{
}

/// The selected account is shown by its name and its number, or by its number
/// alone; without a selection there is an invitation to select.
pub proof fn texts_are_of_the_selected(accounts: Seq<AccountView>, i: usize)
    requires
        i < accounts.len(),
    ensures
        ({
            let a = accounts[i as int];
            &&& a.persona_name.len() == 0 ==> selection_text_of(accounts, Some(i)) == a.id
            &&& a.persona_name.len() > 0 ==> selection_text_of(accounts, Some(i)) == a.persona_name
                + " ("@ + a.id + ")"@
        }),
        selection_text_of(accounts, None) == "Select account…"@,
{
}

/// A state is well-formed exactly when each selection that is made is one of the
/// accounts, and a side's selection is its own.
pub proof fn selections_are_accounts(app: AppView)
    ensures
        app.well_formed() <==> (app.source matches Some(i) ==> i < app.accounts.len()) && (
        app.target matches Some(i) ==> i < app.accounts.len()),
        selectable(app.accounts, app.source) <==> (app.source matches Some(i) ==> i
            < app.accounts.len()),
        app.selected(Side::Source) == app.source,
        app.selected(Side::Target) == app.target,
{
}

/// A click asks to copy from the account that is selected as the source to the
/// one that is selected as the target, below the user data, and gives their names.
pub proof fn copies_are_between_the_selected(app: AppView, s: usize, t: usize)
    requires
        app.source == Some(s),
        app.target == Some(t),
        s < app.accounts.len(),
        t < app.accounts.len(),
    ensures
        s == t || app.userdata is None ==> app.copy_request() is None,
        s != t && app.userdata is Some ==> {
            &&& app.copy_request() matches Some(r)
            &&& r.base == app.userdata->0
            &&& r.source_id == app.accounts[s as int].id
            &&& r.target_id == app.accounts[t as int].id
            &&& r.source_name == app.accounts[s as int].persona_name
            &&& r.target_name == app.accounts[t as int].persona_name
        },
{
}

/// A click says why nothing is copied where a selection is missing or both are
/// the same, and otherwise leaves the status as it is. A new status changes
/// nothing else.
pub proof fn clicks_say_what_is_wrong(app: AppView, status: Seq<char>)
    ensures
        app.source is None || app.target is None ==> app.status_after_click()
            == "Please select both Source and Target accounts."@ && app.copy_request() is None,
        app.source is Some && app.source == app.target ==> app.status_after_click()
            == "⚠ Source and Target are the same account."@ && app.copy_request() is None,
        app.source is Some && app.target is Some && app.source != app.target
            ==> app.status_after_click() == app.status,
        app.with_status(status).status == status,
        app.with_status(status).accounts == app.accounts,
        app.with_status(status).source == app.source,
        app.with_status(status).target == app.target,
        app.with_status(status).source_search == app.source_search,
        app.with_status(status).target_search == app.target_search,
        app.with_status(status).userdata == app.userdata,
        app.with_status(status).dota_cfg == app.dota_cfg,
        app.with_status(status).updates_pending == app.updates_pending,
        app.with_status(status).loading == app.loading,
{
}

/// After a copy the status names the two accounts, the source first, or tells
/// what went wrong.
pub proof fn copies_are_reported(r: RequestView, error: Seq<char>)
    ensures
        status_after_copy(r, None) == "✓ Copied from "@ + r.source_name + " → "@ + r.target_name,
        status_after_copy(r, Some(error)) == "✗ Error: "@ + error,
{
}

/// Updates are applied one after the other, in the order in which they came.
pub proof fn updates_come_in_turn(
    accounts: Seq<AccountView>,
    first: Seq<UpdateView>,
    then: Seq<UpdateView>,
    u: UpdateView,
)
    ensures
        with_updates(accounts, Seq::empty()) == accounts,
        with_updates(accounts, seq![u]) == with_update(accounts, u),
        with_updates(accounts, first + then) == with_updates(with_updates(accounts, first), then),
    decreases then.len(),
{
    let one = seq![u];
    assert(one.drop_last() == Seq::<UpdateView>::empty());
    assert(with_updates(accounts, one.drop_last()) == accounts);
    assert(one.last() == u);
    if then.len() == 0 {
        assert(first + then == first);
    } else {
        updates_come_in_turn(accounts, first, then.drop_last(), u);
        assert((first + then).drop_last() == first + then.drop_last());
        assert((first + then).last() == then.last());
    }
}

/// Something is to be drawn anew exactly when one of the updates has the number
/// of one of the accounts.
pub proof fn updates_that_apply_are_seen(accounts: Seq<AccountView>, updates: Seq<UpdateView>)
    ensures
        any_applies(accounts, updates) <==> exists|i: int, k: int|
            0 <= i < updates.len() && 0 <= k < accounts.len() && (#[trigger] accounts[k]).id == (
            #[trigger] updates[i]).id,
{
    if any_applies(accounts, updates) {
        let i = choose|i: int|
            0 <= i < updates.len() && position_of(accounts, #[trigger] updates[i].id)
                < accounts.len();
        updates_go_by_the_number(accounts, updates[i].id);
        let k = choose|k: int| 0 <= k < accounts.len() && (#[trigger] accounts[k]).id == updates[i].id;
        assert(accounts[k].id == updates[i].id);
    }
    if exists|i: int, k: int|
        0 <= i < updates.len() && 0 <= k < accounts.len() && (#[trigger] accounts[k]).id == (
        #[trigger] updates[i]).id {
        let (i, k) = choose|i: int, k: int|
            0 <= i < updates.len() && 0 <= k < accounts.len() && (#[trigger] accounts[k]).id == (
            #[trigger] updates[i]).id;
        updates_go_by_the_number(accounts, updates[i].id);
        assert(position_of(accounts, updates[i].id) < accounts.len());
    }
}

/// The tool starts with no selection and no search, ready, with the accounts and
/// the directories that were found, and awaits updates where there are accounts.
/// Without user data it has nothing and says so.
pub proof fn the_tool_starts_with_what_was_found(
    userdata: PathView,
    dota_cfg: Option<PathView>,
    accounts: Seq<AccountView>,
)
    ensures
        ({
            let app = AppView::started(Some(userdata), dota_cfg, accounts);
            let bare = AppView::started(None, dota_cfg, accounts);
            &&& app.accounts == accounts
            &&& app.userdata == Some(userdata)
            &&& app.dota_cfg == dota_cfg
            &&& app.status == "Ready"@
            &&& app.updates_pending <==> accounts.len() > 0
            &&& app.source is None && app.target is None
            &&& app.source_search.len() == 0 && app.target_search.len() == 0
            &&& !app.loading
            &&& bare.accounts.len() == 0
            &&& bare.userdata is None && bare.dota_cfg is None
            &&& bare.status == "Steam userdata not found!"@
            &&& !bare.updates_pending && !bare.loading
            &&& bare.source is None && bare.target is None
            &&& bare.source_search.len() == 0 && bare.target_search.len() == 0
        }),
{
}

/// What is selected for a side is then its selection; the other side, and all
/// else, stays. A later selection for the side takes the place of an earlier one.
pub proof fn selections_are_made_for_one_side(
    app: AppView,
    side: Side,
    other: Side,
    i: usize,
    j: usize,
)
    ensures
        app.selecting(side, i).selected(side) == Some(i),
        side != other ==> app.selecting(side, i).selected(other) == app.selected(other),
        app.selecting(side, i).selecting(side, j) == app.selecting(side, j),
        ({
            let now = app.selecting(side, i);
            &&& now.accounts == app.accounts
            &&& now.source_search == app.source_search
            &&& now.target_search == app.target_search
            &&& now.status == app.status
            &&& now.userdata == app.userdata
            &&& now.dota_cfg == app.dota_cfg
            &&& now.updates_pending == app.updates_pending
            &&& now.loading == app.loading
        }),
{
}

/// Updates that arrive change the accounts and whether more are awaited, and
/// nothing else; those that arrive when none are awaited change nothing.
pub proof fn updates_change_the_accounts_alone(
    app: AppView,
    updates: Seq<UpdateView>,
    disconnected: bool,
)
    ensures
        ({
            let now = app.arrived(updates, disconnected);
            &&& app.updates_pending ==> now.accounts == with_updates(app.accounts, updates)
            &&& app.updates_pending ==> now.updates_pending == !disconnected
            &&& !app.updates_pending ==> now.accounts == app.accounts && !now.updates_pending
            &&& now.source == app.source && now.target == app.target
            &&& now.source_search == app.source_search
            &&& now.target_search == app.target_search
            &&& now.status == app.status
            &&& now.userdata == app.userdata
            &&& now.dota_cfg == app.dota_cfg
            &&& now.loading == app.loading
        }),
        ({
            let now = app.awaiting();
            &&& now.updates_pending
            &&& now.accounts == app.accounts
            &&& now.source == app.source && now.target == app.target
            &&& now.source_search == app.source_search
            &&& now.target_search == app.target_search
            &&& now.status == app.status
            &&& now.userdata == app.userdata
            &&& now.dota_cfg == app.dota_cfg
            &&& now.loading == app.loading
        }),
{
}

/// The window shows the two sides exactly when the accounts are loaded and there
/// are some.
pub proof fn the_window_shows_the_accounts(app: AppView)
    ensures
        app.panel() == MainPanel::Columns <==> !app.loading && app.accounts.len() > 0,
        app.panel() == MainPanel::Loading <==> app.loading,
        app.panel() == MainPanel::NoAccounts <==> !app.loading && app.accounts.len() == 0,
{
}

} // verus!
